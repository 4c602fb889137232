//! Bitboard primitives: square indexing, precomputed knight/king/pawn attack
//! tables, and sliding-piece attacks through fixed-shift magic bitboards (one
//! multiply, one shift and one table read per lookup).
//!
//! The ray scan [`sliding_attacks_ray_scan`] is the reference that fills the
//! magic tables; both carry the same contract, so a lookup and a scan always
//! agree.
use vstd::prelude::*;
use crate::bits::{
    clear_lowest, count, count_bounds, count_remove, flags, group_bits, highest, lowest, on,
    on_single, same_members, small_counts,
};
use crate::geometry::{
    ascending, between, between_dir, bishop_reaches, file, file_step, king_reaches,
    knight_reaches, on_ray, pawn_reaches, rank, rank_step, ray_index, ray_total, ray_trans,
    ray_unique, ray_valid, rook_reaches, slides, valid,
};
use crate::safety::answers;

verus! {

broadcast use group_bits;

pub type Bitboard = u64;

pub const ALL: Bitboard = 0xffff_ffff_ffff_ffff;

pub const EMPTY: Bitboard = 0;

pub const FILE_A: Bitboard = 0x0101_0101_0101_0101;

/// Index of the square on the given rank and file (both counted from zero).
#[inline(always)]
pub fn sq(rank: u8, file: u8) -> (r: u8)
    requires
        rank * 8 + file <= 255,
    ensures
        r == rank * 8 + file,
{
    rank * 8 + file
}

#[inline(always)]
pub fn rank_of(square: u8) -> (r: u8)
    ensures
        r == rank(square as int),
{
    square / 8
}

#[inline(always)]
pub fn file_of(square: u8) -> (r: u8)
    ensures
        r == file(square as int),
{
    square % 8
}

/// The mask whose only member is `square`.
#[inline(always)]
pub fn bit(square: u8) -> (r: Bitboard)
    requires
        square < 64,
    ensures
        forall|t: int| #[trigger] on(r, t) <==> t == square,
        r != 0,
{
    let r: u64 = 1u64 << square;
    proof {
        assert forall|t: int| #[trigger] on(r, t) <==> t == square by {
            on_single(square, t);
        }
            assert(on(r, square as int));
    }
    r
}

/// Removes the least square from `bb` and returns it.
#[inline(always)]
pub fn pop_lsb(bb: &mut Bitboard) -> (s: u8)
    requires
        *old(bb) != 0,
    ensures
        s < 64,
        on(*old(bb), s as int),
        forall|t: int| #[trigger] on(*old(bb), t) ==> t >= s,
        forall|t: int| #[trigger] on(*final(bb), t) <==> on(*old(bb), t) && t != s,
        *final(bb) < *old(bb),
{
    proof {
        lowest(*bb);
        clear_lowest(*bb);
        let b = *bb;
        assert(b & ((b - 1) as u64) < b) by (bit_vector)
            requires
                b != 0,
        ;
    }
    let s = bb.trailing_zeros() as u8;
    *bb = *bb & (*bb - 1);
    s
}

/// Number of squares in `bb`.
#[inline(always)]
pub fn popcount(bb: Bitboard) -> (n: u32)
    ensures
        n == count(bb),
{
    let mut rest: Bitboard = bb;
    let mut n: u32 = 0;
    proof {
        count_bounds(bb, 64);
    }
    while rest != 0
        invariant
            n + count(rest) == count(bb),
            count(bb) <= 64,
        decreases rest,
    {
        let ghost before = rest;
        let s = pop_lsb(&mut rest);
        proof {
            count_remove(before, rest, s as int, 64);
        }
        n += 1;
    }
    proof {
        small_counts(0);
    }
    n
}

/// 8 ray directions: 0=N,1=S,2=E,3=W,4=NE,5=NW,6=SE,7=SW
pub const DIR_N: usize = 0;

pub const DIR_S: usize = 1;

pub const DIR_E: usize = 2;

pub const DIR_W: usize = 3;

pub const DIR_NE: usize = 4;

pub const DIR_NW: usize = 5;

pub const DIR_SE: usize = 6;

pub const DIR_SW: usize = 7;

/// Orthogonal directions come first (rook-type), diagonal second (bishop-type).
pub const ROOK_DIRS: [usize; 4] = [DIR_N, DIR_S, DIR_E, DIR_W];

pub const BISHOP_DIRS: [usize; 4] = [DIR_NE, DIR_NW, DIR_SE, DIR_SW];

/// Rank and file step of a direction.
fn dir_delta(dir: usize) -> (r: (i32, i32))
    ensures
        dir < 8 ==> r.0 == rank_step(dir as int) && r.1 == file_step(dir as int),
        dir >= 8 ==> r == (0i32, 0i32),
{
    match dir {
        0 => (1, 0),
        1 => (-1, 0),
        2 => (0, 1),
        3 => (0, -1),
        4 => (1, 1),
        5 => (1, -1),
        6 => (-1, 1),
        7 => (-1, -1),
        _ => (0, 0),
    }
}

/// The next square from `square` along `dir`, or -1 at the edge.
fn step(square: i32, dir: usize) -> (r: i32)
    requires
        0 <= square < 64,
    ensures
        -1 <= r < 64,
        r < 0 ==> forall|t: int| !#[trigger] on_ray(dir as int, square as int, t),
        r >= 0 ==> on_ray(dir as int, square as int, r as int),
        r >= 0 ==> forall|t: int| #[trigger]
            on_ray(dir as int, square as int, t) ==> t == r || on_ray(dir as int, r as int, t),
        !(r >= 0 && on_ray(dir as int, r as int, square as int)),
{
    proof {
        reveal(on_ray);
    }
    if dir >= 8 {
        return -1;
    }
    let (dr, df) = dir_delta(dir);
    let r: i32 = square / 8 + dr;
    let f: i32 = square % 8 + df;
    if 0 <= r && r < 8 && 0 <= f && f < 8 {
        r * 8 + f
    } else {
        -1
    }
}

/// All squares from `square` (exclusive) to the edge of the board along `dir`.
fn ray_mask(dir: usize, square: u8) -> (mask: Bitboard)
    requires
        square < 64,
    ensures
        forall|t: int| #[trigger] on(mask, t) <==> on_ray(dir as int, square as int, t),
{
    let ghost d = dir as int;
    let ghost s = square as int;
    let mut mask: Bitboard = 0;
    let mut cur: i32 = square as i32;
    let mut nxt: i32 = step(cur, dir);
    while nxt >= 0
        invariant
            0 <= cur < 64,
            -1 <= nxt < 64,
            d == dir,
            s == square,
            valid(s),
            cur == s || on_ray(d, s, cur as int),
            nxt < 0 ==> forall|t: int| !#[trigger] on_ray(d, cur as int, t),
            nxt >= 0 ==> on_ray(d, cur as int, nxt as int),
            nxt >= 0 ==> forall|t: int| #[trigger]
                on_ray(d, cur as int, t) ==> t == nxt || on_ray(d, nxt as int, t),
            forall|t: int| #[trigger]
                on(mask, t) <==> on_ray(d, s, t) && !on_ray(d, cur as int, t),
        decreases
                (if nxt < 0 {
                    0int
                } else if ascending(d) {
                    64 - nxt
                } else {
                    nxt + 1
                }),
    {
        let b = bit(nxt as u8);
        let ghost old_mask = mask;
        let ghost old_cur = cur as int;
        mask = mask | b;
        cur = nxt;
        nxt = step(cur, dir);
        proof {
            if old_cur != s {
                ray_trans(d, s, old_cur, cur as int);
            }
            assert forall|t: int| #[trigger] on(mask, t) <==> on_ray(d, s, t) && !on_ray(
                d,
                cur as int,
                t,
            ) by {
                assert(on(mask, t) <==> on(old_mask, t) || t == cur);
                if on_ray(d, cur as int, t) {
                    ray_trans(d, old_cur, cur as int, t);
                    ray_valid(d, cur as int, t);
                }
                if t == cur {
                    if on_ray(d, cur as int, cur as int) {
                        ray_valid(d, cur as int, cur as int);
                    }
                }
            }
            if nxt >= 0 {
                ray_index(d, cur as int, nxt as int);
            }
        }
    }
    proof {
        assert forall|t: int| #[trigger] on(mask, t) <==> on_ray(d, s, t) by {
            assert(!on_ray(d, cur as int, t));
        }
    }
    mask
}

/// Adds the square with the given coordinates to `bb` if it is on the board.
fn with_square(bb: Bitboard, r: i32, f: i32) -> (m: Bitboard)
    requires
        -8 <= r < 16,
        -8 <= f < 16,
    ensures
        forall|t: int| #[trigger]
            on(m, t) <==> on(bb, t) || (0 <= r < 8 && 0 <= f < 8 && t == r * 8 + f),
{
    if 0 <= r && r < 8 && 0 <= f && f < 8 {
        bb | bit((r * 8 + f) as u8)
    } else {
        bb
    }
}

fn knight_mask(square: u8) -> (m: Bitboard)
    requires
        square < 64,
    ensures
        forall|t: int| #[trigger] on(m, t) <==> knight_reaches(square as int, t),
{
    let r: i32 = (square / 8) as i32;
    let f: i32 = (square % 8) as i32;
    let mut m: Bitboard = 0;
    m = with_square(m, r + 1, f + 2);
    m = with_square(m, r + 2, f + 1);
    m = with_square(m, r + 2, f - 1);
    m = with_square(m, r + 1, f - 2);
    m = with_square(m, r - 1, f - 2);
    m = with_square(m, r - 2, f - 1);
    m = with_square(m, r - 2, f + 1);
    m = with_square(m, r - 1, f + 2);
    m
}

fn king_mask(square: u8) -> (m: Bitboard)
    requires
        square < 64,
    ensures
        forall|t: int| #[trigger] on(m, t) <==> king_reaches(square as int, t),
{
    let r: i32 = (square / 8) as i32;
    let f: i32 = (square % 8) as i32;
    let mut m: Bitboard = 0;
    m = with_square(m, r + 1, f);
    m = with_square(m, r - 1, f);
    m = with_square(m, r, f + 1);
    m = with_square(m, r, f - 1);
    m = with_square(m, r + 1, f + 1);
    m = with_square(m, r + 1, f - 1);
    m = with_square(m, r - 1, f + 1);
    m = with_square(m, r - 1, f - 1);
    m
}

/// White pawns attack upward (rank+1), black pawns downward (rank-1).
fn pawn_mask(white: bool, square: u8) -> (m: Bitboard)
    requires
        square < 64,
    ensures
        forall|t: int| #[trigger] on(m, t) <==> pawn_reaches(white, square as int, t),
{
    let r: i32 = (square / 8) as i32;
    let f: i32 = (square % 8) as i32;
    let up: i32 = if white {
        1
    } else {
        -1
    };
    let mut m: Bitboard = 0;
    m = with_square(m, r + up, f - 1);
    m = with_square(m, r + up, f + 1);
    m
}

/// Ray, knight, king and pawn attack tables.
///
/// `rays[dir][sq]` holds all squares from `sq` (exclusive) to the edge of the
/// board along `dir`; `pawn_attacks[color][sq]` has color 0 = white, 1 = black.
pub struct RayTables {
    pub(crate) rays: [[Bitboard; 64]; 8],
    pub(crate) knight: [Bitboard; 64],
    pub(crate) king: [Bitboard; 64],
    pub(crate) pawn_attacks: [[Bitboard; 64]; 2],
}

impl RayTables {
    /// Every entry is the set that the geometry of the board prescribes.
    #[verifier::type_invariant]
    pub(crate) closed spec fn wf(self) -> bool {
        &&& forall|d: int, s: int, t: int|
            0 <= d < 8 && 0 <= s < 64 ==> (#[trigger] on(self.rays[d][s], t) <==> on_ray(d, s, t))
        &&& forall|s: int, t: int|
            0 <= s < 64 ==> (#[trigger] on(self.knight[s], t) <==> knight_reaches(s, t))
        &&& forall|s: int, t: int|
            0 <= s < 64 ==> (#[trigger] on(self.king[s], t) <==> king_reaches(s, t))
        &&& forall|s: int, t: int|
            0 <= s < 64 ==> (#[trigger] on(self.pawn_attacks[0][s], t) <==> pawn_reaches(
                true,
                s,
                t,
            ))
        &&& forall|s: int, t: int|
            0 <= s < 64 ==> (#[trigger] on(self.pawn_attacks[1][s], t) <==> pawn_reaches(
                false,
                s,
                t,
            ))
    }

    pub fn new() -> Self {
        build_ray_tables()
    }

    /// The ray from `square` along `dir`.
    #[inline(always)]
    pub fn ray(&self, dir: usize, square: u8) -> (r: Bitboard)
        requires
            dir < 8,
            square < 64,
        ensures
            forall|t: int| #[trigger] on(r, t) <==> on_ray(dir as int, square as int, t),
    {
        proof {
            use_type_invariant(self);
        }
        self.rays[dir][square as usize]
    }
}

fn build_ray_tables() -> (r: RayTables)
    ensures
        r.wf(),
{
    let mut rays: [[Bitboard; 64]; 8] = [[0u64; 64]; 8];
    let mut dir: usize = 0;
    while dir < 8
        invariant
            dir <= 8,
            forall|d: int, s: int, t: int|
                0 <= d < dir && 0 <= s < 64 ==> (#[trigger] on(rays[d][s], t) <==> on_ray(d, s, t)),
        decreases 8 - dir,
    {
        let mut s: u8 = 0;
        while s < 64
            invariant
                dir < 8,
                s <= 64,
                forall|d: int, u: int, t: int|
                    0 <= d < dir && 0 <= u < 64 ==> (#[trigger] on(rays[d][u], t) <==> on_ray(
                        d,
                        u,
                        t,
                    )),
                forall|u: int, t: int|
                    0 <= u < s ==> (#[trigger] on(rays[dir as int][u], t) <==> on_ray(
                        dir as int,
                        u,
                        t,
                    )),
            decreases 64 - s,
        {
            rays[dir][s as usize] = ray_mask(dir, s);
            s += 1;
        }
        dir += 1;
    }
    let mut knight: [Bitboard; 64] = [0u64; 64];
    let mut king: [Bitboard; 64] = [0u64; 64];
    let mut white_pawn: [Bitboard; 64] = [0u64; 64];
    let mut black_pawn: [Bitboard; 64] = [0u64; 64];
    let mut s: u8 = 0;
    while s < 64
        invariant
            s <= 64,
            forall|u: int, t: int|
                0 <= u < s ==> (#[trigger] on(knight[u], t) <==> knight_reaches(u, t)),
            forall|u: int, t: int|
                0 <= u < s ==> (#[trigger] on(king[u], t) <==> king_reaches(u, t)),
            forall|u: int, t: int|
                0 <= u < s ==> (#[trigger] on(white_pawn[u], t) <==> pawn_reaches(true, u, t)),
            forall|u: int, t: int|
                0 <= u < s ==> (#[trigger] on(black_pawn[u], t) <==> pawn_reaches(false, u, t)),
        decreases 64 - s,
    {
        knight[s as usize] = knight_mask(s);
        king[s as usize] = king_mask(s);
        white_pawn[s as usize] = pawn_mask(true, s);
        black_pawn[s as usize] = pawn_mask(false, s);
        s += 1;
    }
    RayTables { rays, knight, king, pawn_attacks: [white_pawn, black_pawn] }
}

/// A slider on `s` that moves along `dirs` over `occ` reaches `t`.
pub open spec fn dirs_reach(dirs: Seq<usize>, s: int, t: int, occ: Seq<bool>) -> bool {
    exists|i: int| 0 <= i < dirs.len() && slides(#[trigger] dirs[i] as int, s, t, occ)
}

/// Sliding attack generation along a set of directions, stopping at (and
/// including) the first blocker in each direction.
#[inline]
pub fn sliding_attacks_ray_scan(
    tables: &RayTables,
    square: u8,
    occ: Bitboard,
    dirs: &[usize; 4],
) -> (attacks: Bitboard)
    requires
        square < 64,
        forall|i: int| 0 <= i < 4 ==> #[trigger] dirs[i] < 8,
    ensures
        forall|t: int| #[trigger]
            on(attacks, t) <==> dirs_reach(dirs@, square as int, t, flags(occ)),
{
    let ghost s = square as int;
    let mut attacks: Bitboard = 0;
    let mut i: usize = 0;
    while i < 4
        invariant
            i <= 4,
            square < 64,
            s == square,
            forall|j: int| 0 <= j < 4 ==> #[trigger] dirs[j] < 8,
            forall|t: int| #[trigger]
                on(attacks, t) <==> dirs_reach(dirs@.take(i as int), s, t, flags(occ)),
        decreases 4 - i,
    {
        let dir = dirs[i];
        let ghost d = dir as int;
        let full_ray = tables.ray(dir, square);
        let ghost before = attacks;
        attacks = attacks | full_ray;
        let blockers = full_ray & occ;
        if blockers != 0 {
            let nearest = nearest_blocker(square, dir, blockers);
            let beyond = tables.ray(dir, nearest);
            attacks = attacks & !beyond;
            proof {
                let n = nearest as int;
                assert(on(full_ray, n) && flags(occ)[n]);
                assert forall|t: int| #[trigger] on(attacks, t) <==> on(before, t) || slides(
                    d,
                    s,
                    t,
                    flags(occ),
                ) by {
                    assert(on(attacks, t) <==> (on(before, t) || on(full_ray, t)) && !on(beyond, t));
                    if on(before, t) && on_ray(d, n, t) {
                        let j = choose|j: int|
                            0 <= j < i && slides(
                                #[trigger] dirs@.take(i as int)[j] as int,
                                s,
                                t,
                                flags(occ),
                            );
                        let e = dirs[j] as int;
                        ray_trans(d, s, n, t);
                        ray_unique(d, e, s, t);
                        assert(!flags(occ)[n]);
                    }
                    if on_ray(d, s, t) && !on_ray(d, n, t) {
                        assert forall|u: int| #[trigger] on_ray(d, s, u) && on_ray(
                            d,
                            u,
                            t,
                        ) implies !flags(occ)[u] by {
                            ray_valid(d, s, u);
                            if on(occ, u) {
                                assert(on(blockers, u));
                                if u != n {
                                    ray_trans(d, n, u, t);
                                }
                            }
                        }
                    }
                    if slides(d, s, t, flags(occ)) && on_ray(d, n, t) {
                        assert(!flags(occ)[n]);
                    }
                }
            }
        } else {
            proof {
                assert forall|t: int| #[trigger] on(attacks, t) <==> on(before, t) || slides(
                    d,
                    s,
                    t,
                    flags(occ),
                ) by {
                    if on_ray(d, s, t) {
                        assert forall|u: int| #[trigger] on_ray(d, s, u) && on_ray(
                            d,
                            u,
                            t,
                        ) implies !flags(occ)[u] by {
                            ray_valid(d, s, u);
                            assert(!on(blockers, u));
                        }
                    }
                }
            }
        }
        proof {
            let a = dirs@.take(i as int);
            let b = dirs@.take(i as int + 1);
            assert(b =~= a.push(dir));
            assert forall|t: int| #[trigger] on(attacks, t) <==> dirs_reach(
                b,
                s,
                t,
                flags(occ),
            ) by {
                if dirs_reach(a, s, t, flags(occ)) {
                    let j = choose|j: int|
                        0 <= j < a.len() && slides(#[trigger] a[j] as int, s, t, flags(occ));
                    assert(b[j] == a[j]);
                }
                if slides(d, s, t, flags(occ)) {
                    assert(b[i as int] as int == d);
                }
                if dirs_reach(b, s, t, flags(occ)) {
                    let j = choose|j: int|
                        0 <= j < b.len() && slides(#[trigger] b[j] as int, s, t, flags(occ));
                    if j < i {
                        assert(b[j] == a[j]);
                    }
                }
            }
        }
        i += 1;
    }
    proof {
        assert(dirs@.take(4) =~= dirs@);
    }
    attacks
}

/// Given a set of blocker bits all lying along `dir` from `square`, the one
/// closest to `square`.
#[inline]
pub(crate) fn nearest_blocker(square: u8, dir: usize, blockers: Bitboard) -> (r: u8)
    requires
        blockers != 0,
        dir < 8,
        forall|t: int| #[trigger] on(blockers, t) ==> on_ray(dir as int, square as int, t),
    ensures
        r < 64,
        on(blockers, r as int),
        forall|t: int| #[trigger]
            on(blockers, t) ==> t == r || on_ray(dir as int, r as int, t),
{
    proof {
        lowest(blockers);
        highest(blockers);
    }
    let r: u8 = if dir == DIR_N || dir == DIR_E || dir == DIR_NE || dir == DIR_NW {
        blockers.trailing_zeros() as u8
    } else {
        63 - blockers.leading_zeros() as u8
    };
    proof {
        let d = dir as int;
        assert forall|t: int| #[trigger] on(blockers, t) implies t == r || on_ray(
            d,
            r as int,
            t,
        ) by {
            if t != r {
                ray_total(d, square as int, t, r as int);
                if on_ray(d, t, r as int) {
                    ray_index(d, t, r as int);
                }
            }
        }
    }
    r
}

// Magic bitboards: index = ((occ & mask) * magic) >> shift, then one table
// read. The multipliers are fixed numbers; a table is filled by walking the
// subsets of its mask once.

/// One square's lookup table. `exact` says that no two subsets of `mask` with
/// different attack sets share an index, so that the table may be read.
pub struct MagicEntry {
    pub(crate) mask: Bitboard,
    pub(crate) magic: u64,
    pub(crate) shift: u32,
    pub(crate) exact: bool,
    pub(crate) attacks: Vec<Bitboard>,
}

/// Table index of the occupancy subset `x`.
pub open spec fn magic_index(x: u64, magic: u64, shift: u32) -> int {
    (vstd::wrapping::u64_specs::wrapping_mul(x, magic) >> shift) as int
}

/// Whether `u` can block a slider on `s` that moves along `dirs`: it is on one
/// of its rays, and not the last square there.
pub open spec fn can_block(dirs: Seq<usize>, s: int, u: int) -> bool {
    exists|i: int, t: int|
        0 <= i < dirs.len() && #[trigger] on_ray(dirs[i] as int, s, u) && #[trigger] on_ray(
            dirs[i] as int,
            u,
            t,
        )
}

impl MagicEntry {
    /// The entry answers for a slider on `s` that moves along `dirs`.
    pub(crate) closed spec fn answers(self, s: int, dirs: Seq<usize>) -> bool {
        &&& forall|u: int| #[trigger] on(self.mask, u) <==> can_block(dirs, s, u)
        &&& self.attacks@.len() <= 0x10_0000
        &&& self.exact ==> 1 <= self.shift < 64 && forall|x: u64|
            x & self.mask == x ==> self.row(x, s, dirs)
    }

    /// The row of subset `x` holds its attack set.
    pub(crate) closed spec fn row(self, x: u64, s: int, dirs: Seq<usize>) -> bool {
        row_holds(self.attacks@, magic_index(x, self.magic, self.shift), x, s, dirs)
    }
}

/// `rows[i]` is the attack set over the occupancy `x`.
pub open spec fn row_holds(rows: Seq<u64>, i: int, x: u64, s: int, dirs: Seq<usize>) -> bool {
    &&& 0 <= i < rows.len()
    &&& forall|t: int| #[trigger] on(rows[i], t) <==> dirs_reach(dirs, s, t, flags(x))
}

/// The squares outside the blocking mask never change an attack set.
proof fn masked_reach(dirs: Seq<usize>, s: int, t: int, occ: u64, mask: u64)
    requires
        forall|u: int| #[trigger] on(mask, u) <==> can_block(dirs, s, u),
    ensures
        dirs_reach(dirs, s, t, flags(occ)) <==> dirs_reach(dirs, s, t, flags(occ & mask)),
{
    assert forall|i: int| 0 <= i < dirs.len() implies (slides(
        #[trigger] dirs[i] as int,
        s,
        t,
        flags(occ),
    ) <==> slides(dirs[i] as int, s, t, flags(occ & mask))) by {
        let d = dirs[i] as int;
        assert forall|u: int| #[trigger] on_ray(d, s, u) && on_ray(d, u, t) implies flags(occ)[u]
            == flags(occ & mask)[u] by {
            ray_valid(d, s, u);
            assert(can_block(dirs, s, u));
            assert(on(mask, u));
        }
    }
}

/// The relevant-occupancy mask for a slider on `square` moving along `dirs`:
/// every square where a blocker actually changes the attack set. The outermost
/// square in each direction is excluded.
fn relevant_mask(square: u8, dirs: &[usize; 4]) -> (mask: Bitboard)
    requires
        square < 64,
        forall|i: int| 0 <= i < 4 ==> #[trigger] dirs[i] < 8,
    ensures
        forall|u: int| #[trigger] on(mask, u) <==> can_block(dirs@, square as int, u),
{
    let ghost s = square as int;
    let mut mask: Bitboard = 0;
    let mut i: usize = 0;
    while i < 4
        invariant
            i <= 4,
            square < 64,
            s == square,
            forall|j: int| 0 <= j < 4 ==> #[trigger] dirs[j] < 8,
            forall|u: int| #[trigger] on(mask, u) <==> can_block(dirs@.take(i as int), s, u),
        decreases 4 - i,
    {
        let inner = inner_ray(dirs[i], square);
        let ghost before = mask;
        mask = mask | inner;
        proof {
            let a = dirs@.take(i as int);
            let b = dirs@.take(i as int + 1);
            assert forall|u: int| #[trigger] on(mask, u) <==> can_block(b, s, u) by {
                if can_block(a, s, u) {
                    let (j, t) = choose|j: int, t: int|
                        0 <= j < a.len() && #[trigger] on_ray(a[j] as int, s, u)
                            && #[trigger] on_ray(a[j] as int, u, t);
                    assert(b[j] == a[j]);
                    assert(on_ray(b[j] as int, s, u) && on_ray(b[j] as int, u, t));
                }
                if on(inner, u) {
                    let d = dirs[i as int] as int;
                    let t = choose|t: int| on_ray(d, u, t);
                    assert(b[i as int] as int == d);
                    assert(on_ray(b[i as int] as int, s, u) && on_ray(b[i as int] as int, u, t));
                }
                if can_block(b, s, u) {
                    let (j, t) = choose|j: int, t: int|
                        0 <= j < b.len() && #[trigger] on_ray(b[j] as int, s, u)
                            && #[trigger] on_ray(b[j] as int, u, t);
                    if j < i {
                        assert(b[j] == a[j]);
                        assert(on_ray(a[j] as int, s, u) && on_ray(a[j] as int, u, t));
                    }
                }
            }
        }
        i += 1;
    }
    proof {
        assert(dirs@.take(4) =~= dirs@);
    }
    mask
}

/// The ray from `square` along `dir` without its last square.
fn inner_ray(dir: usize, square: u8) -> (mask: Bitboard)
    requires
        square < 64,
        dir < 8,
    ensures
        forall|u: int| #[trigger]
            on(mask, u) <==> on_ray(dir as int, square as int, u) && exists|t: int|
                on_ray(dir as int, u, t),
{
    let ghost d = dir as int;
    let ghost s = square as int;
    let mut rest = ray_mask(dir, square);
    let ghost whole = rest;
    let mut mask: Bitboard = 0;
    while rest != 0
        invariant
            dir < 8,
            d == dir,
            s == square,
            forall|u: int| #[trigger] on(whole, u) <==> on_ray(d, s, u),
            forall|u: int| #[trigger] on(rest, u) ==> on(whole, u),
            forall|u: int| #[trigger]
                on(mask, u) <==> on(whole, u) && !on(rest, u) && exists|t: int| on_ray(d, u, t),
        decreases rest,
    {
        let ghost before = mask;
        let ghost before_rest = rest;
        let u = pop_lsb(&mut rest);
        let next = step(u as i32, dir);
        if next >= 0 {
            mask = mask | bit(u);
        }
        proof {
            assert forall|v: int| #[trigger] on(mask, v) <==> on(whole, v) && !on(rest, v)
                && exists|t: int| on_ray(d, v, t) by {
                assert(on(before, v) <==> on(whole, v) && !on(before_rest, v) && exists|t: int|
                    on_ray(d, v, t));
                assert(on(rest, v) <==> on(before_rest, v) && v != u);
                if next >= 0 {
                    assert(on_ray(d, u as int, next as int));
                }
            }
        }
    }
    mask
}

/// The subset walk `next = (subset - mask) & mask` goes to the next larger
/// subset of `mask`.
proof fn next_subset(subset: u64, mask: u64, x: u64, next: u64)
    by (bit_vector)
    requires
        subset & mask == subset,
        subset < mask,
        x & mask == x,
        next == ((subset - mask + 0x1_0000_0000_0000_0000) as u64) & mask,
    ensures
        next & mask == next,
        subset < next,
        x > subset ==> x >= next,
{
}

/// Fixed-shift magic multipliers, one per square.
const ROOK_MAGICS: [u64; 64] = [
    0x1080004008801020, 0x0840092002C03000, 0x1900200010400900, 0x0880100008000480,
    0x4200100420080200, 0x8100020100080400, 0x0200040110886200, 0x0200008040220411,
    0x0404800084400220, 0x0000401000402000, 0x0086001081220440, 0x0408800800100280,
    0x000A001201040820, 0x8848800200840080, 0x4001000100040200, 0x0442000102105084,
    0x9080010020804100, 0x0040404000201009, 0x0000808010002009, 0x2200090021D00100,
    0x0008008008040080, 0x0004004002010040, 0x0011040008015042, 0x00000A0001768104,
    0x0000800080204009, 0x2010004140002001, 0x9800200280100080, 0x1000100080080080,
    0x0050500500080100, 0x0000020080040080, 0x0C10010400420810, 0x1040008200005104,
    0x01808240088004A0, 0x0882804004802000, 0x0880402001001100, 0x2000210409001000,
    0x2000480131001500, 0x0000800400800200, 0x000002380C001003, 0x4600084882000431,
    0x0080002000504000, 0x0300500020004002, 0x0040408200220011, 0x0010040008004040,
    0x0000080004008080, 0x0010040002008080, 0x2012004881020004, 0x8300842444820011,
    0x0088403882010200, 0x0820400080210100, 0x0110910040A00300, 0x0801100280080480,
    0x0242009008200600, 0x1002000489500200, 0x0040800200010080, 0x0091800041000080,
    0x0000209300488001, 0x04C1002414824001, 0x020020000B001041, 0x7000100004200901,
    0x8002002004100802, 0x30010002084C0007, 0x0888221800813004, 0x4000002840840112,
];

const BISHOP_MAGICS: [u64; 64] = [
    0x20C0090901061081, 0x0024040094030104, 0x8210810200290200, 0x0011040484620000,
    0x0081104002221000, 0x0009012011001350, 0x0081010802400380, 0x0000420210010408,
    0x0008105002280050, 0x0001028484040044, 0x2A00880810408804, 0x7020022282000100,
    0x0084040420100A50, 0x000401010840E000, 0x2020020210420888, 0x0008084202012010,
    0x2010400810018800, 0x0445122008020840, 0x0804100808002008, 0x0008002104110100,
    0x0061005820080800, 0x2001000200820100, 0x480C210084010800, 0x3004442500480420,
    0x1010102240048100, 0x00182009084220A3, 0x8803090A10004205, 0x0208080040202020,
    0x000C044084010040, 0x00A1010002004106, 0x6008210020640202, 0x1600902112860801,
    0x00042008C1220200, 0x010C042002440140, 0x5022080200040820, 0x0402004042940100,
    0x0860108400008020, 0x000C080022021000, 0x0264080652822100, 0x4005031221010401,
    0x0004502410008400, 0x000500B010A20400, 0x0415094050080800, 0x080000201800A104,
    0x4022A80304000110, 0x4012140802028020, 0x40200104010100A0, 0x12810806008B0C41,
    0x0020441008080000, 0x2002120084045420, 0x0704020062080002, 0x0000001084040001,
    0x0322200891240200, 0xF040200210024800, 0x0140824832008042, 0x000210020A004602,
    0x0083042805141020, 0x002C12009A011000, 0x0041A00044140400, 0x00004004020A0202,
    0x0000140010020210, 0x2864160811012200, 0x2060080841082A17, 0xA010041108003100,
];

proof fn index_fits(y: u64, bits: u32)
    by (bit_vector)
    requires
        1 <= bits <= 20,
    ensures
        (y >> ((64 - bits) as u32)) < (1u64 << bits),
        (1u64 << bits) <= 0x10_0000,
{
}

proof fn subset_at_most(x: u64, mask: u64)
    by (bit_vector)
    requires
        x & mask == x,
    ensures
        x <= mask,
{
}

/// Builds one square's attack table from its magic number in one pass over the
/// subsets of the mask. A collision between different attack sets, or a mask
/// too large for a table, leaves the entry without a table (`exact` unset).
fn build_magic_entry(tables: &RayTables, square: u8, dirs: &[usize; 4], magic: u64) -> (e:
    MagicEntry)
    requires
        square < 64,
        forall|i: int| 0 <= i < 4 ==> #[trigger] dirs[i] < 8,
    ensures
        e.answers(square as int, dirs@),
{
    let ghost s = square as int;
    let mask = relevant_mask(square, dirs);
    let bits = popcount(mask);
    if bits == 0 || bits > 20 {
        return MagicEntry { mask, magic, shift: 1, exact: false, attacks: Vec::new() };
    }
    let shift: u32 = 64 - bits;
    proof {
        index_fits(0, bits);
    }
    let size: usize = (1u64 << bits) as usize;
    let mut attacks: Vec<Bitboard> = vec![0u64; size];
    let mut filled: Vec<bool> = vec![false; size];
    let mut exact: bool = true;
    let mut subset: Bitboard = 0;
    let mut done: bool = false;
    proof {
        assert(0u64 & mask == 0u64) by (bit_vector);
    }
    while !done
        invariant
            s == square,
            square < 64,
            forall|i: int| 0 <= i < 4 ==> #[trigger] dirs[i] < 8,
            1 <= bits <= 20,
            shift == 64 - bits,
            attacks@.len() == size,
            filled@.len() == size,
            size as u64 == (1u64 << bits),
            size <= 0x10_0000,
            subset & mask == subset,
            exact ==> forall|x: u64|
                x & mask == x && (done || x < subset) ==> row_holds(
                    attacks@,
                    #[trigger] magic_index(x, magic, shift),
                    x,
                    s,
                    dirs@,
                ) && filled@[magic_index(x, magic, shift)],
        decreases
                (if done {
                    0int
                } else {
                    1 + mask - subset
                }),
    {
        let product = subset.wrapping_mul(magic);
        proof {
            index_fits(product, bits);
            subset_at_most(subset, mask);
        }
        let idx = (product >> shift) as usize;
        let att = sliding_attacks_ray_scan(tables, square, subset, dirs);
        let ghost before = attacks@;
        let ghost before_filled = filled@;
        if filled[idx] {
            if attacks[idx] != att {
                exact = false;
            }
        } else {
            attacks[idx] = att;
            filled[idx] = true;
        }
        let ghost last = subset;
        let next = subset.wrapping_sub(mask) & mask;
        proof {
            assert(magic_index(last, magic, shift) == idx);
            if exact {
                assert(attacks@[idx as int] == att);
                assert(row_holds(attacks@, idx as int, last, s, dirs@));
                assert forall|x: u64| x & mask == x && x < last implies row_holds(
                    attacks@,
                    #[trigger] magic_index(x, magic, shift),
                    x,
                    s,
                    dirs@,
                ) && filled@[magic_index(x, magic, shift)] by {
                    let i = magic_index(x, magic, shift);
                    assert(row_holds(before, i, x, s, dirs@) && before_filled[i]);
                    if i != idx {
                        assert(attacks@[i] == before[i]);
                    }
                }
            }
        }
        if next == 0 {
            done = true;
            proof {
                if last < mask {
                    next_subset(last, mask, last, next);
                }
                assert forall|x: u64| x & mask == x implies x <= last by {
                    subset_at_most(x, mask);
                }
            }
        } else {
            proof {
                if last == mask {
                    assert(0u64 & mask == 0u64) by (bit_vector);
                    assert(false);
                }
                next_subset(last, mask, last, next);
                subset_at_most(next, mask);
                assert forall|x: u64| x & mask == x && x < next implies x <= last by {
                    next_subset(last, mask, x, next);
                }
            }
            subset = next;
        }
    }
    MagicEntry { mask, magic, shift, exact, attacks }
}

/// The lookup tables of all squares.
pub struct MagicTables {
    pub(crate) rook: Vec<MagicEntry>,
    pub(crate) bishop: Vec<MagicEntry>,
}

impl MagicTables {
    #[verifier::type_invariant]
    pub(crate) closed spec fn wf(self) -> bool {
        &&& self.rook@.len() == 64
        &&& self.bishop@.len() == 64
        &&& forall|s: int| 0 <= s < 64 ==> (#[trigger] self.rook@[s]).answers(s, ROOK_DIRS@)
        &&& forall|s: int| 0 <= s < 64 ==> (#[trigger] self.bishop@[s]).answers(s, BISHOP_DIRS@)
    }
}

fn build_magic_tables(tables: &RayTables) -> (r: MagicTables)
    ensures
        r.wf(),
{
    let mut rook: Vec<MagicEntry> = Vec::with_capacity(64);
    let mut bishop: Vec<MagicEntry> = Vec::with_capacity(64);
    let mut s: u8 = 0;
    while s < 64
        invariant
            s <= 64,
            rook@.len() == s,
            bishop@.len() == s,
            forall|u: int| 0 <= u < s ==> (#[trigger] rook@[u]).answers(u, ROOK_DIRS@),
            forall|u: int| 0 <= u < s ==> (#[trigger] bishop@[u]).answers(u, BISHOP_DIRS@),
        decreases 64 - s,
    {
        rook.push(build_magic_entry(tables, s, &ROOK_DIRS, ROOK_MAGICS[s as usize]));
        bishop.push(build_magic_entry(tables, s, &BISHOP_DIRS, BISHOP_MAGICS[s as usize]));
        s += 1;
    }
    MagicTables { rook, bishop }
}

/// All attack tables: build them once and share them.
pub struct AttackTables {
    pub rays: RayTables,
    pub magic: MagicTables,
}

impl AttackTables {
    pub fn new() -> Self {
        let rays = build_ray_tables();
        let magic = build_magic_tables(&rays);
        AttackTables { rays, magic }
    }
}

/// Attack set of a slider on `square`, from its table entry.
#[inline(always)]
fn entry_attacks(
    rays: &RayTables,
    e: &MagicEntry,
    square: u8,
    occ: Bitboard,
    dirs: &[usize; 4],
) -> (r: Bitboard)
    requires
        square < 64,
        e.answers(square as int, dirs@),
        forall|i: int| 0 <= i < 4 ==> #[trigger] dirs[i] < 8,
    ensures
        forall|t: int| #[trigger] on(r, t) <==> dirs_reach(dirs@, square as int, t, flags(occ)),
{
    if e.exact {
        let x = occ & e.mask;
        proof {
            let m = e.mask;
            assert((occ & m) & m == occ & m) by (bit_vector);
            assert(e.row(x, square as int, dirs@));
        }
        let idx = (x.wrapping_mul(e.magic) >> e.shift) as usize;
        let r = e.attacks[idx];
        proof {
            assert forall|t: int| #[trigger] on(r, t) <==> dirs_reach(
                dirs@,
                square as int,
                t,
                flags(occ),
            ) by {
                masked_reach(dirs@, square as int, t, occ, e.mask);
            }
        }
        r
    } else {
        sliding_attacks_ray_scan(rays, square, occ, dirs)
    }
}

proof fn slider_dirs(s: int, t: int, occ: Seq<bool>)
    ensures
        dirs_reach(ROOK_DIRS@, s, t, occ) <==> rook_reaches(s, t, occ),
        dirs_reach(BISHOP_DIRS@, s, t, occ) <==> bishop_reaches(s, t, occ),
{
    let r = ROOK_DIRS@;
    let b = BISHOP_DIRS@;
    assert(r[0] == 0 && r[1] == 1 && r[2] == 2 && r[3] == 3);
    assert(b[0] == 4 && b[1] == 5 && b[2] == 6 && b[3] == 7);
}

/// Squares a rook on `square` attacks when `occ` is occupied.
#[inline(always)]
pub fn rook_attacks(tables: &AttackTables, square: u8, occ: Bitboard) -> (r: Bitboard)
    requires
        square < 64,
    ensures
        forall|t: int| #[trigger] on(r, t) <==> rook_reaches(square as int, t, flags(occ)),
{
    proof {
        use_type_invariant(&tables.magic);
    }
    let r = entry_attacks(
        &tables.rays,
        &tables.magic.rook[square as usize],
        square,
        occ,
        &ROOK_DIRS,
    );
    proof {
        assert forall|t: int| #[trigger] on(r, t) <==> rook_reaches(
            square as int,
            t,
            flags(occ),
        ) by {
            slider_dirs(square as int, t, flags(occ));
        }
    }
    r
}

/// Squares a bishop on `square` attacks when `occ` is occupied.
#[inline(always)]
pub fn bishop_attacks(tables: &AttackTables, square: u8, occ: Bitboard) -> (r: Bitboard)
    requires
        square < 64,
    ensures
        forall|t: int| #[trigger] on(r, t) <==> bishop_reaches(square as int, t, flags(occ)),
{
    proof {
        use_type_invariant(&tables.magic);
    }
    let r = entry_attacks(
        &tables.rays,
        &tables.magic.bishop[square as usize],
        square,
        occ,
        &BISHOP_DIRS,
    );
    proof {
        assert forall|t: int| #[trigger] on(r, t) <==> bishop_reaches(
            square as int,
            t,
            flags(occ),
        ) by {
            slider_dirs(square as int, t, flags(occ));
        }
    }
    r
}

/// Squares a queen on `square` attacks when `occ` is occupied.
#[inline(always)]
pub fn queen_attacks(tables: &AttackTables, square: u8, occ: Bitboard) -> (r: Bitboard)
    requires
        square < 64,
    ensures
        forall|t: int| #[trigger]
            on(r, t) <==> rook_reaches(square as int, t, flags(occ)) || bishop_reaches(
                square as int,
                t,
                flags(occ),
            ),
{
    rook_attacks(tables, square, occ) | bishop_attacks(tables, square, occ)
}

#[inline(always)]
pub fn knight_attacks(tables: &AttackTables, square: u8) -> (r: Bitboard)
    requires
        square < 64,
    ensures
        forall|t: int| #[trigger] on(r, t) <==> knight_reaches(square as int, t),
{
    proof {
        use_type_invariant(&tables.rays);
    }
    tables.rays.knight[square as usize]
}

#[inline(always)]
pub fn king_attacks(tables: &AttackTables, square: u8) -> (r: Bitboard)
    requires
        square < 64,
    ensures
        forall|t: int| #[trigger] on(r, t) <==> king_reaches(square as int, t),
{
    proof {
        use_type_invariant(&tables.rays);
    }
    tables.rays.king[square as usize]
}

#[inline(always)]
pub fn pawn_attacks(tables: &AttackTables, color_is_white: bool, square: u8) -> (r: Bitboard)
    requires
        square < 64,
    ensures
        forall|t: int| #[trigger] on(r, t) <==> pawn_reaches(color_is_white, square as int, t),
{
    proof {
        use_type_invariant(&tables.rays);
    }
    let side: usize = if color_is_white {
        0
    } else {
        1
    };
    tables.rays.pawn_attacks[side][square as usize]
}

/// Squares strictly between `a` and `b` along a straight or diagonal line, or
/// none if they are not aligned.
pub fn ray_between(tables: &AttackTables, a: u8, b: u8) -> (r: Bitboard)
    requires
        a < 64,
        b < 64,
    ensures
        forall|u: int| #[trigger] on(r, u) <==> between(a as int, b as int, u),
{
    let target = bit(b);
    let mut dir: usize = 0;
    while dir < 8
        invariant
            dir <= 8,
            a < 64,
            b < 64,
            forall|t: int| #[trigger] on(target, t) <==> t == b,
            forall|d: int| 0 <= d < dir ==> !on_ray(d, a as int, b as int),
        decreases 8 - dir,
    {
        let ray = tables.rays.ray(dir, a);
        let hit = ray & target;
        if hit != 0 {
            let beyond_b = tables.rays.ray(dir, b);
            let r = ray & !beyond_b & !target;
            proof {
                lowest(hit);
                let d = dir as int;
                assert(on_ray(d, a as int, b as int));
                assert forall|u: int| #[trigger] on(r, u) <==> between(a as int, b as int, u) by {
                    between_dir(d, a as int, b as int, u);
                    if on_ray(d, a as int, u) && u != b {
                        ray_total(d, a as int, b as int, u);
                    }
                    if on_ray(d, u, b as int) {
                        ray_valid(d, u, b as int);
                    }
                }
            }
            return r;
        }
        proof {
            if on_ray(dir as int, a as int, b as int) {
                assert(on(hit, b as int));
            }
        }
        dir += 1;
    }
    proof {
        assert forall|u: int| !between(a as int, b as int, u) by {
            if between(a as int, b as int, u) {
                let e = choose|e: int| #[trigger] on_ray(e, a as int, u) && on_ray(e, u, b as int);
                ray_trans(e, a as int, u, b as int);
                ray_valid(e, a as int, b as int);
            }
        }
    }
    0
}

/// Looking a rook's attacks up and scanning its rays give the same mask.
pub proof fn rook_lookup_equals_scan(looked_up: u64, scanned: u64, s: int, occ: Seq<bool>)
    requires
        forall|t: int| #[trigger] on(looked_up, t) <==> rook_reaches(s, t, occ),
        forall|t: int| #[trigger] on(scanned, t) <==> dirs_reach(ROOK_DIRS@, s, t, occ),
    ensures
        looked_up == scanned,
{
    assert forall|t: int| 0 <= t < 64 implies (#[trigger] on(looked_up, t) <==> on(scanned, t)) by {
        slider_dirs(s, t, occ);
    }
    same_members(looked_up, scanned);
}

/// The same for bishops.
pub proof fn bishop_lookup_equals_scan(looked_up: u64, scanned: u64, s: int, occ: Seq<bool>)
    requires
        forall|t: int| #[trigger] on(looked_up, t) <==> bishop_reaches(s, t, occ),
        forall|t: int| #[trigger] on(scanned, t) <==> dirs_reach(BISHOP_DIRS@, s, t, occ),
    ensures
        looked_up == scanned,
{
    assert forall|t: int| 0 <= t < 64 implies (#[trigger] on(looked_up, t) <==> on(scanned, t)) by {
        slider_dirs(s, t, occ);
    }
    same_members(looked_up, scanned);
}

} // verus!
