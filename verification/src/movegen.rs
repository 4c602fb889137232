//! Attacks, checks and legal moves.
use vstd::prelude::*;
use crate::bitboard::{
    ALL, Bitboard, bishop_attacks, bit, file_of, king_attacks, knight_attacks, nearest_blocker,
    pawn_attacks, pop_lsb, popcount, queen_attacks, rank_of, ray_between, rook_attacks, sq,
};
use crate::bits::{flags, group_bits, lowest, on, small_counts};
use crate::geometry::{
    bishop_symmetric, king_reaches, leaper_symmetric, on_ray, pawn_reaches, rank, ray_total,
    ray_trans, ray_unique, ray_valid, rook_symmetric, valid,
};
use crate::legality::{
    castling_safe, double_check_king_moves, ep_safe, king_step_safe, no_castling_in_check,
    piece_move_safe, without,
};
use crate::listing::{
    grown, grown_end, grown_skip, grown_start, grown_try, key_of, key_order, kind, legal_moves,
    legal_ranges, lists_all, move_key, phase, promotion_rank,
};
use crate::moves::{Move, MoveFlag, MoveList, MoveParts, packed, packed_parts};
use crate::pieces::{Color, PieceType};
use crate::position::{CR_BK, CR_BQ, CR_WK, CR_WQ, Position};
use crate::rules::{
    Board, Squares, at, attacked, attacks_from, board_wf, castles, ep_target_ok, ep_victim,
    home_rank, in_check, king_at_home, legal, occupied, pawn_captures, pawn_double_pushes,
    pawn_flag, pawn_pushes, pawn_takes_ep, pawn_up, piece_reaches, promo_rank, pseudo_legal,
    safe_square, squares_after,
};
use crate::safety::{answers, checker, evades, keeps_pin, line_piece, our_king, pins_along, slider};
pub use crate::captures::generate_qsearch_captures;
pub use crate::checks::{CheckingSquares, compute_checking_squares, gives_check};
pub use crate::exchange::see;
pub use crate::perft::perft;

verus! {

broadcast use group_bits;

/// The occupied squares, as the masks have them.
pub proof fn occ_all_flags(pos: &Position)
    requires
        pos.masks_wf(),
    ensures
        flags(pos.occ_all) == occupied(pos.mailbox@),
{
    assert forall|s: int| 0 <= s < 64 implies flags(pos.occ_all)[s] == occupied(pos.mailbox@)[s] by {
        assert(on(pos.occ_all, s) <==> pos.mailbox@[s] is Some);
    }
    assert(flags(pos.occ_all) =~= occupied(pos.mailbox@));
}

/// The pieces of one colour that attack `square`, with `occ` as the occupied
/// squares.
pub fn attackers_of(pos: &Position, attacker_color: Color, square: u8, occ: Bitboard) -> (r: Bitboard)
    requires
        pos.masks_wf(),
        square < 64,
    ensures
        forall|s: int| #[trigger]
            on(r, s) <==> attacks_from(
                pos.mailbox@,
                attacker_color,
                s,
                square as int,
                flags(occ),
            ),
{
    let tables = &pos.ctx.attacks;
    let c = attacker_color.idx();
    let mut attackers: u64 = 0;
    let knights = pos.pieces[c][PieceType::Knight.idx()];
    let kings = pos.pieces[c][PieceType::King.idx()];
    let pawns = pos.pieces[c][PieceType::Pawn.idx()];
    attackers = attackers | (knight_attacks(tables, square) & knights);
    attackers = attackers | (king_attacks(tables, square) & kings);
    let defender_is_white = attacker_color == Color::Black;
    attackers = attackers | (pawn_attacks(tables, defender_is_white, square) & pawns);
    let rooks = pos.pieces[c][PieceType::Rook.idx()];
    let bishops = pos.pieces[c][PieceType::Bishop.idx()];
    let queens = pos.pieces[c][PieceType::Queen.idx()];
    let rook_like = rooks | queens;
    let ghost leapers = attackers;
    if rook_like != 0 {
        attackers = attackers | (rook_attacks(tables, square, occ) & rook_like);
    }
    let ghost straight = attackers;
    let bishop_like = bishops | queens;
    if bishop_like != 0 {
        attackers = attackers | (bishop_attacks(tables, square, occ) & bishop_like);
    }
    proof {
        let t = square as int;
        assert forall|s: int| #[trigger] on(attackers, s) <==> attacks_from(
            pos.mailbox@,
            attacker_color,
            s,
            t,
            flags(occ),
        ) by {
            leaper_symmetric(s, t);
            rook_symmetric(s, t, flags(occ));
            bishop_symmetric(s, t, flags(occ));
            if valid(s) {
                let i = attacker_color.index();
                assert(on(pos.pieces[i][PieceType::Knight.index()], s) <==> pos.mailbox@[s] == Some(
                    (attacker_color, PieceType::Knight),
                ));
                assert(on(pos.pieces[i][PieceType::King.index()], s) <==> pos.mailbox@[s] == Some(
                    (attacker_color, PieceType::King),
                ));
                assert(on(pos.pieces[i][PieceType::Pawn.index()], s) <==> pos.mailbox@[s] == Some(
                    (attacker_color, PieceType::Pawn),
                ));
                assert(on(pos.pieces[i][PieceType::Rook.index()], s) <==> pos.mailbox@[s] == Some(
                    (attacker_color, PieceType::Rook),
                ));
                assert(on(pos.pieces[i][PieceType::Bishop.index()], s) <==> pos.mailbox@[s] == Some(
                    (attacker_color, PieceType::Bishop),
                ));
                assert(on(pos.pieces[i][PieceType::Queen.index()], s) <==> pos.mailbox@[s] == Some(
                    (attacker_color, PieceType::Queen),
                ));
                assert(rook_like == 0 ==> !on(rooks | queens, s));
                assert(bishop_like == 0 ==> !on(bishops | queens, s));
            }
        }
    }
    attackers
}

/// A mask of attackers is empty exactly if the square is not attacked.
proof fn attack_mask(mask: u64, squares: Squares, by: Color, t: int, occ: Seq<bool>)
    requires
        forall|s: int| #[trigger] on(mask, s) <==> attacks_from(squares, by, s, t, occ),
    ensures
        mask != 0 <==> attacked(squares, by, t, occ),
{
    if mask != 0 {
        lowest(mask);
        assert(attacks_from(
            squares,
            by,
            vstd::std_specs::bits::u64_trailing_zeros(mask) as int,
            t,
            occ,
        ));
    }
    if attacked(squares, by, t, occ) {
        let s = choose|s: int| #[trigger] attacks_from(squares, by, s, t, occ);
        assert(on(mask, s));
    }
}

/// Whether the king of the given colour is attacked.
#[inline]
pub fn is_in_check(pos: &Position, color: Color) -> (r: bool)
    requires
        pos.wf(),
    ensures
        r == in_check(pos@, color),
{
    let ksq = pos.king_square[color.idx()];
    proof {
        assert(king_at_home(pos@, Color::White) && king_at_home(pos@, Color::Black));
        occ_all_flags(pos);
    }
    let attackers = attackers_of(pos, color.opponent(), ksq, pos.occ_all);
    proof {
        attack_mask(
            attackers,
            pos.mailbox@,
            color.other(),
            ksq as int,
            occupied(pos.mailbox@),
        );
    }
    attackers != 0
}

/// Checks and pins against the side to move.
struct GenContext {
    /// Destinations that answer the check; all squares if there is none.
    checkmask: Bitboard,
    /// For a pinned piece, the squares of its pin line.
    pin_mask: [Bitboard; 64],
    is_pinned: [bool; 64],
    num_checkers: u32,
}

/// The side to move has a piece on `s`.
pub open spec fn own(b: Board, s: int) -> bool {
    b.squares[s] matches Some((c, _)) && c == b.side
}

/// `to` lies on the line along `d` from the king to `s`, `s` included.
pub open spec fn on_pin_line(b: Board, d: int, s: int, to: int) -> bool {
    on_ray(d, our_king(b), to) && (to == s || on_ray(d, to, s))
}

/// The pins along the first `n` directions have been found.
spec fn pins_found(b: Board, is_pinned: [bool; 64], pin_mask: [u64; 64], n: int) -> bool {
    &&& forall|from: int|
        #![trigger is_pinned[from]]
        valid(from) && is_pinned[from] ==> exists|d: int, s: int|
            0 <= d < n && #[trigger] pins_along(b, d, from, s)
    &&& forall|d: int, from: int, s: int|
        0 <= d < n && own(b, from) && #[trigger] pins_along(b, d, from, s) ==> is_pinned[from]
            && forall|to: int| #[trigger] on(pin_mask[from], to) <==> on_pin_line(b, d, s, to)
}

impl GenContext {
    spec fn describes(self, b: Board) -> bool {
        &&& self.num_checkers == 0 ==> forall|s: int| !#[trigger] checker(b, s)
        &&& self.num_checkers >= 1 ==> exists|s: int| #[trigger] checker(b, s)
        &&& self.num_checkers >= 2 ==> exists|s: int, t: int|
            s != t && #[trigger] checker(b, s) && #[trigger] checker(b, t)
        &&& self.num_checkers <= 1 ==> forall|t: int|
            valid(t) ==> (#[trigger] on(self.checkmask, t) <==> evades(b, t))
        &&& forall|from: int, to: int|
            #![trigger keeps_pin(b, from, to)]
            valid(from) && valid(to) && own(b, from) ==> (keeps_pin(b, from, to) <==> (
            self.is_pinned[from] ==> on(self.pin_mask[from], to)))
    }
}

/// Looks for a pin in one direction from the king: an own piece, and behind it
/// an enemy slider that moves along this line.
fn scan_pin_dir(
    pos: &Position,
    us: Color,
    ksq: u8,
    dir: usize,
    enemy_sliders_this_dir: Bitboard,
    is_pinned: &mut [bool; 64],
    pin_mask: &mut [Bitboard; 64],
)
    requires
        pos.wf(),
        us == pos.side_to_move,
        ksq == our_king(pos@),
        dir < 8,
        forall|s: int|
            valid(s) ==> (#[trigger] on(enemy_sliders_this_dir, s) <==> (pos.mailbox@[s] matches Some(
                (c, pt),
            ) && c == us.other() && line_piece(pt, dir as int))),
        pins_found(pos@, *old(is_pinned), *old(pin_mask), dir as int),
    ensures
        pins_found(pos@, *final(is_pinned), *final(pin_mask), dir + 1),
{
    let ghost b = pos@;
    let ghost d = dir as int;
    let ghost k = our_king(b);
    proof {
        assert(king_at_home(b, us));
    }
    let tables = &pos.ctx.attacks;
    let ray = tables.rays.ray(dir, ksq);
    let occ_on_ray = ray & pos.occ_all;
    if occ_on_ray == 0 {
        proof {
            assert forall|from: int, s: int| own(b, from) implies !#[trigger] pins_along(
                b,
                d,
                from,
                s,
            ) by {
                if pins_along(b, d, from, s) {
                    ray_valid(d, k, from);
                    assert(on(ray & pos.occ_all, from));
                }
            }
        }
        return;
    }
    let first_sq = nearest_blocker(ksq, dir, occ_on_ray);
    let ghost f = first_sq as int;
    proof {
        assert(on_ray(d, k, f) && on(pos.occ_all, f));
        assert forall|from: int, s: int| own(b, from) && #[trigger] pins_along(b, d, from, s) implies from
            == f by {
            ray_valid(d, k, from);
            assert(on(occ_on_ray, from));
            if from != f {
                assert(on_ray(d, f, from));
                ray_trans(d, f, from, s);
                assert(b.squares[f] is None);
            }
        }
    }
    let first_is_own = pos.occ[us.idx()] & bit(first_sq) != 0;
    proof {
        member_test(pos.occ[us.index()], first_sq);
        assert(on(pos.occ[us.index()], f) <==> own(b, f));
    }
    if !first_is_own {
        return;
    }
    let ray_beyond = tables.rays.ray(dir, first_sq);
    let occ_beyond = ray_beyond & pos.occ_all;
    if occ_beyond == 0 {
        proof {
            assert forall|from: int, s: int| own(b, from) implies !#[trigger] pins_along(
                b,
                d,
                from,
                s,
            ) by {
                if pins_along(b, d, from, s) {
                    ray_valid(d, f, s);
                    assert(on(ray_beyond & pos.occ_all, s));
                }
            }
        }
        return;
    }
    let second_sq = nearest_blocker(first_sq, dir, occ_beyond);
    let ghost g = second_sq as int;
    proof {
        assert(on_ray(d, f, g) && on(pos.occ_all, g));
        assert forall|from: int, s: int| own(b, from) && #[trigger] pins_along(b, d, from, s) implies s
            == g by {
            assert(from == f);
            ray_valid(d, f, s);
            assert(on(occ_beyond, s));
            if s != g {
                assert(on_ray(d, g, s));
                ray_trans(d, k, f, g);
                ray_valid(d, f, g);
                assert(b.squares[g] is None);
            }
        }
        member_test(enemy_sliders_this_dir, second_sq);
    }
    if enemy_sliders_this_dir & bit(second_sq) != 0 {
        let ray_beyond_pinner = tables.rays.ray(dir, second_sq);
        let ghost old_pinned = *is_pinned;
        let ghost old_mask = *pin_mask;
        is_pinned[first_sq as usize] = true;
        pin_mask[first_sq as usize] = ray & !ray_beyond_pinner;
        proof {
            ray_trans(d, k, f, g);
            assert forall|u: int| #[trigger] on_ray(d, k, u) && on_ray(d, u, g) && u != f implies b.squares[u] is None by {
                ray_valid(d, k, u);
                if on(pos.occ_all, u) {
                    assert(on(occ_on_ray, u));
                    assert(on_ray(d, f, u));
                    assert(on(occ_beyond, u));
                    assert(u == g || on_ray(d, g, u));
                    ray_valid(d, u, g);
                }
            }
            assert(pins_along(b, d, f, g));
            assert forall|to: int| #[trigger] on(pin_mask[f], to) <==> on_pin_line(b, d, g, to) by {
                if on(ray, to) {
                    ray_valid(d, k, to);
                    if to != g {
                        ray_total(d, k, to, g);
                    }
                    if on_ray(d, g, to) {
                        ray_valid(d, g, to);
                    }
                }
            }
            assert forall|e: int, from: int, s: int|
                0 <= e < d && own(b, from) && #[trigger] pins_along(b, e, from, s) implies from != f by {
                if from == f {
                    ray_unique(d, e, k, f);
                }
            }
            assert forall|from: int|
                #![trigger is_pinned[from]]
                valid(from) && is_pinned[from] implies exists|e: int, s: int|
                0 <= e < d + 1 && #[trigger] pins_along(b, e, from, s) by {
                if from == f {
                    assert(pins_along(b, d, f, g));
                } else {
                    assert(old_pinned[from]);
                    let (e, s) = choose|e: int, s: int|
                        0 <= e < d && #[trigger] pins_along(b, e, from, s);
                    assert(pins_along(b, e, from, s));
                }
            }
            assert forall|e: int, from: int, s: int|
                0 <= e < d + 1 && own(b, from) && #[trigger] pins_along(b, e, from, s) implies is_pinned[from]
                && forall|to: int| #[trigger] on(pin_mask[from], to) <==> on_pin_line(b, e, s, to) by {
                if e < d {
                    assert(from != f);
                    ray_valid(e, k, from);
                    assert(old_pinned[from]);
                    assert(pin_mask[from] == old_mask[from]);
                } else {
                    assert(from == f && s == g);
                }
            }
        }
    } else {
        proof {
            assert forall|from: int, s: int| own(b, from) implies !#[trigger] pins_along(
                b,
                d,
                from,
                s,
            ) by {
                if pins_along(b, d, from, s) {
                    assert(s == g);
                    ray_valid(d, f, g);
                    assert(on(enemy_sliders_this_dir, g));
                }
            }
        }
    }
}

/// Testing one bit of a mask.
pub proof fn member_test(mask: u64, s: u8)
    requires
        s < 64,
    ensures
        forall|single: u64|
            (forall|t: int| #[trigger] on(single, t) <==> t == s) ==> (#[trigger] (mask & single) != 0
                <==> on(mask, s as int)),
{
    assert forall|single: u64|
        (forall|t: int| #[trigger] on(single, t) <==> t == s) implies (#[trigger] (mask & single) != 0
        <==> on(mask, s as int)) by {
        if mask & single != 0 {
            lowest(mask & single);
            let z = vstd::std_specs::bits::u64_trailing_zeros(mask & single) as int;
            assert(on(single, z));
        }
        if on(mask, s as int) {
            assert(on(single, s as int));
            assert(on(mask & single, s as int));
        }
    }
}

/// Finds the checks and the pins against the side to move.
fn compute_context(pos: &Position, us: Color) -> (r: GenContext)
    requires
        pos.wf(),
        us == pos.side_to_move,
    ensures
        r.describes(pos@),
{
    let ghost b = pos@;
    proof {
        assert(king_at_home(b, Color::White) && king_at_home(b, Color::Black));
        occ_all_flags(pos);
    }
    let them = us.opponent();
    let ksq = pos.king_square[us.idx()];
    let ghost k = our_king(b);
    let checkers = attackers_of(pos, them, ksq, pos.occ_all);
    proof {
        assert forall|s: int| #[trigger] on(checkers, s) <==> checker(b, s) by {}
        assert forall|s: int| #[trigger] checker(b, s) <==> on(checkers, s) by {}
        small_counts(checkers);
        if checkers != 0 {
            lowest(checkers);
        }
    }
    let num_checkers = popcount(checkers);
    let checkmask: u64 = if num_checkers == 0 {
        ALL
    } else if num_checkers == 1 {
        let checker_sq = checkers.trailing_zeros() as u8;
        let is_slider = match pos.piece_at(checker_sq) {
            Some((_, PieceType::Bishop)) => true,
            Some((_, PieceType::Rook)) => true,
            Some((_, PieceType::Queen)) => true,
            _ => false,
        };
        if is_slider {
            bit(checker_sq) | ray_between(&pos.ctx.attacks, ksq, checker_sq)
        } else {
            bit(checker_sq)
        }
    } else {
        0
    };
    proof {
        if num_checkers == 0 {
            assert forall|s: int| !#[trigger] checker(b, s) by {
                assert(!on(checkers, s));
            }
        }
        if num_checkers == 1 {
            let q = vstd::std_specs::bits::u64_trailing_zeros(checkers) as int;
            assert(checker(b, q));
            assert forall|t: int| valid(t) implies (#[trigger] on(checkmask, t) <==> evades(b, t)) by {
                assert(on(checkmask, t) <==> answers(b, q, t));
                if answers(b, q, t) {
                    assert forall|s: int| #[trigger] checker(b, s) implies answers(b, s, t) by {
                        assert(on(checkers, s));
                    }
                }
            }
        }
        if num_checkers >= 1 {
            assert(checker(b, vstd::std_specs::bits::u64_trailing_zeros(checkers) as int));
        }
        if num_checkers >= 2 {
            let (s, t) = choose|s: int, t: int|
                s != t && #[trigger] on(checkers, s) && #[trigger] on(checkers, t);
            assert(checker(b, s) && checker(b, t));
        }
    }
    let mut is_pinned: [bool; 64] = [false; 64];
    let mut pin_mask: [u64; 64] = [ALL; 64];
    let them_rook_like = pos.pieces[them.idx()][PieceType::Rook.idx()]
        | pos.pieces[them.idx()][PieceType::Queen.idx()];
    let them_bishop_like = pos.pieces[them.idx()][PieceType::Bishop.idx()]
        | pos.pieces[them.idx()][PieceType::Queen.idx()];
    let mut dir: usize = 0;
    while dir < 8
        invariant
            dir <= 8,
            pos.wf(),
            us == pos.side_to_move,
            them == us.other(),
            b == pos@,
            ksq == our_king(b),
            forall|s: int| #[trigger]
                on(them_rook_like, s) <==> on(
                    pos.pieces[them.index()][PieceType::Rook.index()],
                    s,
                ) || on(pos.pieces[them.index()][PieceType::Queen.index()], s),
            forall|s: int| #[trigger]
                on(them_bishop_like, s) <==> on(
                    pos.pieces[them.index()][PieceType::Bishop.index()],
                    s,
                ) || on(pos.pieces[them.index()][PieceType::Queen.index()], s),
            pins_found(b, is_pinned, pin_mask, dir as int),
        decreases 8 - dir,
    {
        let sliders = if dir < 4 {
            them_rook_like
        } else {
            them_bishop_like
        };
        scan_pin_dir(pos, us, ksq, dir, sliders, &mut is_pinned, &mut pin_mask);
        dir += 1;
    }
    proof {
        assert forall|from: int, to: int|
            #![trigger keeps_pin(b, from, to)]
            valid(from) && valid(to) && own(b, from) implies (keeps_pin(b, from, to) <==> (
        is_pinned[from] ==> on(pin_mask[from], to))) by {
            if is_pinned[from] {
                let (d, s) = choose|d: int, s: int|
                    0 <= d < 8 && #[trigger] pins_along(b, d, from, s);
                ray_trans(d, k, from, s);
                assert(on(pin_mask[from], to) <==> on_pin_line(b, d, s, to));
                if on(pin_mask[from], to) {
                    assert forall|e: int, t: int| #[trigger] pins_along(b, e, from, t) implies to == t
                        || (on_ray(e, k, to) && on_ray(e, to, t)) by {
                        ray_valid(e, k, from);
                        assert(on(pin_mask[from], to) <==> on_pin_line(b, e, t, to));
                    }
                }
            } else {
                assert forall|e: int, t: int| !#[trigger] pins_along(b, e, from, t) by {
                    if pins_along(b, e, from, t) {
                        ray_valid(e, k, from);
                    }
                }
            }
        }
    }
    GenContext { checkmask, pin_mask, is_pinned, num_checkers }
}

/// The flag and the captured piece of a move that captures whatever stands on
/// its destination.
fn capture_or_quiet(pos: &Position, to: u8) -> (r: (MoveFlag, PieceType))
    requires
        to < 64,
    ensures
        match pos.mailbox@[to as int] {
            None => r == (MoveFlag::Quiet, PieceType::NoPiece),
            Some((_, pt)) => r == (MoveFlag::Capture, pt),
        },
{
    match pos.piece_at(to) {
        Some((_, pt)) => (MoveFlag::Capture, pt),
        None => (MoveFlag::Quiet, PieceType::NoPiece),
    }
}

/// The own king is the only piece that makes king moves.
proof fn king_move_from(b: Board, m: Move)
    requires
        board_wf(b),
        legal(b, m),
        m.parts().piece == PieceType::King,
    ensures
        m.parts().from == our_king(b),
{
    assert(b.squares[m.parts().from] == Some((b.side, PieceType::King)));
}

/// Lists the king's steps.
fn gen_king_moves(
    pos: &Position,
    us: Color,
    them: Color,
    list: &mut MoveList,
    Ghost(base): Ghost<Seq<Move>>,
)
    requires
        pos.wf(),
        board_wf(pos@),
        us == pos.side_to_move,
        them == us.other(),
        grown(old(list)@, base, pos@, 0),
    ensures
        grown(final(list)@, base, pos@, key_of(1, 0, 0, 0, 0)),
{
    let ghost b = pos@;
    proof {
        assert(king_at_home(b, Color::White) && king_at_home(b, Color::Black));
        occ_all_flags(pos);
    }
    let ksq = pos.king_square[us.idx()];
    let ghost k = our_king(b);
    let occ_without_king = pos.occ_all & !bit(ksq);
    proof {
        assert(flags(occ_without_king) =~= without(occupied(b.squares), k)) by {
            assert forall|s: int| 0 <= s < 64 implies flags(occ_without_king)[s] == without(
                occupied(b.squares),
                k,
            )[s] by {
                assert(flags(pos.occ_all)[s] == occupied(b.squares)[s]);
            }
        }
    }
    let targets = king_attacks(&pos.ctx.attacks, ksq) & !pos.occ[us.idx()];
    let mut t = targets;
    let ghost mut low: int = 0;
    proof {
        assert forall|n: Move| #[trigger] legal(b, n) implies !(0 <= move_key(n.parts()) < key_of(
            0,
            k,
            0,
            0,
            0,
        )) by {
            key_order(b, n, 0, k, 0, 0, 0);
            legal_ranges(b, n);
            if phase(n.parts()) == 0 {
                king_move_from(b, n);
            }
        }
        grown_skip(list@, base, b, 0, key_of(0, k, 0, 0, 0));
    }
    while t != 0
        invariant
            pos.wf(),
            board_wf(b),
            b == pos@,
            us == b.side,
            them == us.other(),
            ksq == k,
            k == our_king(b),
            valid(k),
            0 <= low <= 64,
            flags(occ_without_king) == without(occupied(b.squares), k),
            forall|s: int| #[trigger]
                on(targets, s) <==> king_reaches(k, s) && !own(b, s),
            forall|s: int| #[trigger] on(t, s) <==> on(targets, s) && s >= low,
            grown(list@, base, b, key_of(0, k, 0, low, 0)),
        decreases t,
    {
        let ghost rest = t;
        let to = pop_lsb(&mut t);
        proof {
            assert forall|n: Move| #[trigger] legal(b, n) implies !(key_of(0, k, 0, low, 0)
                <= move_key(n.parts()) < key_of(0, k, 0, to as int, 0)) by {
                key_order(b, n, 0, k, 0, low, 0);
                key_order(b, n, 0, k, 0, to as int, 0);
                legal_ranges(b, n);
                if phase(n.parts()) == 0 && n.parts().to >= low {
                    king_move_from(b, n);
                    assert(on(targets, n.parts().to));
                    assert(on(rest, n.parts().to));
                }
            }
            grown_skip(list@, base, b, key_of(0, k, 0, low, 0), key_of(0, k, 0, to as int, 0));
        }
        let attackers = attackers_of(pos, them, to, occ_without_king);
        let (flag, captured) = capture_or_quiet(pos, to);
        let m = Move::new(ksq, to, flag, PieceType::King, captured);
        proof {
            attack_mask(attackers, b.squares, them, to as int, flags(occ_without_king));
            assert(own(b, to as int) <==> false);
            assert(pseudo_legal(b, m.parts()));
            king_step_safe(b, m.parts());
            assert(legal(b, m) <==> attackers == 0);
            assert(move_key(m.parts()) == key_of(0, k, 0, to as int, 0));
        }
        proof {
            grown_try(list@, base, b, m);
        }
        if attackers == 0 {
            list.push(m);
        }
        proof {
            let done = key_of(0, k, 0, to as int, 1);
            assert forall|n: Move| #[trigger] legal(b, n) implies !(done <= move_key(n.parts())
                < key_of(0, k, 0, to + 1, 0)) by {
                key_order(b, n, 0, k, 0, to as int, 1);
                key_order(b, n, 0, k, 0, to + 1, 0);
                legal_ranges(b, n);
            }
            grown_skip(list@, base, b, done, key_of(0, k, 0, to + 1, 0));
            low = to + 1;
        }
    }
    proof {
        assert forall|n: Move| #[trigger] legal(b, n) implies !(key_of(0, k, 0, low, 0) <= move_key(
            n.parts(),
        ) < key_of(1, 0, 0, 0, 0)) by {
            key_order(b, n, 0, k, 0, low, 0);
            key_order(b, n, 1, 0, 0, 0, 0);
            legal_ranges(b, n);
            if phase(n.parts()) == 0 {
                king_move_from(b, n);
                assert(on(targets, n.parts().to));
                assert(!on(0u64, n.parts().to));
            }
        }
        grown_skip(list@, base, b, key_of(0, k, 0, low, 0), key_of(1, 0, 0, 0, 0));
    }
}

/// The squares that a piece other than pawn or king attacks.
pub(crate) fn piece_attacks(pos: &Position, pt: PieceType, from: u8) -> (r: Bitboard)
    requires
        pos.masks_wf(),
        from < 64,
        pt != PieceType::Pawn,
    ensures
        forall|t: int| #[trigger]
            on(r, t) <==> piece_reaches(
                pt,
                pos.side_to_move,
                from as int,
                t,
                occupied(pos.mailbox@),
            ),
{
    proof {
        occ_all_flags(pos);
    }
    let tables = &pos.ctx.attacks;
    match pt {
        PieceType::Knight => knight_attacks(tables, from),
        PieceType::Bishop => bishop_attacks(tables, from, pos.occ_all),
        PieceType::Rook => rook_attacks(tables, from, pos.occ_all),
        PieceType::Queen => queen_attacks(tables, from, pos.occ_all),
        PieceType::King => king_attacks(tables, from),
        _ => 0,
    }
}

/// The phase of a knight, bishop, rook or queen.
pub open spec fn piece_phase(pt: PieceType) -> int {
    1 + pt.index()
}

pub open spec fn officer(pt: PieceType) -> bool {
    pt == PieceType::Knight || slider(pt)
}

/// Lists the moves of one knight, bishop, rook or queen to the given squares,
/// which are those it may legally move to.
fn gen_targets(
    pos: &Position,
    pt: PieceType,
    from: u8,
    targets: Bitboard,
    list: &mut MoveList,
    Ghost(base): Ghost<Seq<Move>>,
)
    requires
        pos.wf(),
        board_wf(pos@),
        officer(pt),
        from < 64,
        pos.mailbox@[from as int] == Some((pos.side_to_move, pt)),
        forall|t: int| #[trigger]
            on(targets, t) <==> piece_reaches(
                pt,
                pos.side_to_move,
                from as int,
                t,
                occupied(pos.mailbox@),
            ) && valid(t) && !own(pos@, t) && evades(pos@, t) && keeps_pin(pos@, from as int, t),
        grown(old(list)@, base, pos@, key_of(piece_phase(pt), from as int, 0, 0, 0)),
    ensures
        grown(final(list)@, base, pos@, key_of(piece_phase(pt), from + 1, 0, 0, 0)),
{
    let ghost b = pos@;
    let ghost ph = piece_phase(pt);
    let ghost f = from as int;
    let mut t = targets;
    let ghost mut low: int = 0;
    while t != 0
        invariant
            pos.wf(),
            board_wf(b),
            b == pos@,
            officer(pt),
            from < 64,
            f == from,
            ph == piece_phase(pt),
            b.squares[f] == Some((b.side, pt)),
            0 <= low <= 64,
            forall|s: int| #[trigger]
                on(targets, s) <==> piece_reaches(pt, b.side, f, s, occupied(b.squares)) && valid(s)
                    && !own(b, s) && evades(b, s) && keeps_pin(b, f, s),
            forall|s: int| #[trigger] on(t, s) <==> on(targets, s) && s >= low,
            grown(list@, base, b, key_of(ph, f, 0, low, 0)),
        decreases t,
    {
        let ghost rest = t;
        let to = pop_lsb(&mut t);
        proof {
            assert forall|n: Move| #[trigger] legal(b, n) implies !(key_of(ph, f, 0, low, 0)
                <= move_key(n.parts()) < key_of(ph, f, 0, to as int, 0)) by {
                key_order(b, n, ph, f, 0, low, 0);
                key_order(b, n, ph, f, 0, to as int, 0);
                legal_ranges(b, n);
                if phase(n.parts()) == ph && n.parts().from == f && n.parts().to >= low {
                    officer_legal(b, n, pt);
                    assert(on(targets, n.parts().to));
                    assert(on(rest, n.parts().to));
                }
            }
            grown_skip(list@, base, b, key_of(ph, f, 0, low, 0), key_of(ph, f, 0, to as int, 0));
        }
        let (flag, captured) = capture_or_quiet(pos, to);
        let m = Move::new(from, to, flag, pt, captured);
        proof {
            assert(!own(b, to as int));
            assert(pseudo_legal(b, m.parts()));
            piece_move_safe(b, m.parts());
            assert(legal(b, m));
            assert(move_key(m.parts()) == key_of(ph, f, 0, to as int, 0));
            grown_try(list@, base, b, m);
        }
        list.push(m);
        proof {
            assert forall|n: Move| #[trigger] legal(b, n) implies !(key_of(ph, f, 0, to as int, 1)
                <= move_key(n.parts()) < key_of(ph, f, 0, to + 1, 0)) by {
                key_order(b, n, ph, f, 0, to as int, 1);
                key_order(b, n, ph, f, 0, to + 1, 0);
                legal_ranges(b, n);
                if phase(n.parts()) == ph {
                    officer_legal(b, n, pt);
                }
            }
            grown_skip(
                list@,
                base,
                b,
                key_of(ph, f, 0, to as int, 1),
                key_of(ph, f, 0, to + 1, 0),
            );
            low = to + 1;
        }
    }
    proof {
        assert forall|n: Move| #[trigger] legal(b, n) implies !(key_of(ph, f, 0, low, 0) <= move_key(
            n.parts(),
        ) < key_of(ph, f + 1, 0, 0, 0)) by {
            key_order(b, n, ph, f, 0, low, 0);
            key_order(b, n, ph, f + 1, 0, 0, 0);
            legal_ranges(b, n);
            if phase(n.parts()) == ph {
                officer_legal(b, n, pt);
                if n.parts().from == f && n.parts().to >= low {
                    assert(on(targets, n.parts().to));
                    assert(!on(0u64, n.parts().to));
                }
            }
        }
        grown_skip(list@, base, b, key_of(ph, f, 0, low, 0), key_of(ph, f + 1, 0, 0, 0));
    }
}

/// What a legal move of a knight, bishop, rook or queen looks like.
proof fn officer_legal(b: Board, n: Move, pt: PieceType)
    requires
        board_wf(b),
        legal(b, n),
        officer(pt),
        phase(n.parts()) == piece_phase(pt),
    ensures
        n.parts().piece == pt,
        kind(n.parts()) == 0,
        promotion_rank(n.parts()) == 0,
        piece_reaches(pt, b.side, n.parts().from, n.parts().to, occupied(b.squares)),
        !own(b, n.parts().to),
        evades(b, n.parts().to),
        keeps_pin(b, n.parts().from, n.parts().to),
        b.squares[n.parts().from] == Some((b.side, pt)),
{
    piece_move_safe(b, n.parts());
}

/// Lists the moves of all knights, bishops, rooks or queens.
fn gen_piece_moves(
    pos: &Position,
    us: Color,
    pt: PieceType,
    ctx: &GenContext,
    list: &mut MoveList,
    Ghost(base): Ghost<Seq<Move>>,
)
    requires
        pos.wf(),
        board_wf(pos@),
        us == pos.side_to_move,
        officer(pt),
        ctx.describes(pos@),
        ctx.num_checkers <= 1,
        grown(old(list)@, base, pos@, key_of(piece_phase(pt), 0, 0, 0, 0)),
    ensures
        grown(final(list)@, base, pos@, key_of(piece_phase(pt) + 1, 0, 0, 0, 0)),
{
    let ghost b = pos@;
    let ghost ph = piece_phase(pt);
    let all = pos.pieces[us.idx()][pt.idx()];
    let mut bb = all;
    let ghost mut low: int = 0;
    proof {
        assert forall|s: int| #[trigger] on(all, s) <==> valid(s) && b.squares[s] == Some((us, pt)) by {
            if valid(s) {
                assert(on(pos.pieces[us.index()][pt.index()], s) <==> pos.mailbox@[s] == Some(
                    (us, pt),
                ));
            }
        }
    }
    while bb != 0
        invariant
            pos.wf(),
            board_wf(b),
            b == pos@,
            us == b.side,
            officer(pt),
            ctx.describes(b),
            ctx.num_checkers <= 1,
            ph == piece_phase(pt),
            0 <= low <= 64,
            forall|s: int| #[trigger] on(all, s) <==> valid(s) && b.squares[s] == Some((us, pt)),
            forall|s: int| #[trigger] on(bb, s) <==> on(all, s) && s >= low,
            grown(list@, base, b, key_of(ph, low, 0, 0, 0)),
        decreases bb,
    {
        let ghost rest = bb;
        let from = pop_lsb(&mut bb);
        proof {
            assert forall|n: Move| #[trigger] legal(b, n) implies !(key_of(ph, low, 0, 0, 0)
                <= move_key(n.parts()) < key_of(ph, from as int, 0, 0, 0)) by {
                key_order(b, n, ph, low, 0, 0, 0);
                key_order(b, n, ph, from as int, 0, 0, 0);
                legal_ranges(b, n);
                if phase(n.parts()) == ph && n.parts().from >= low {
                    officer_legal(b, n, pt);
                    assert(on(all, n.parts().from));
                    assert(on(rest, n.parts().from));
                }
            }
            grown_skip(list@, base, b, key_of(ph, low, 0, 0, 0), key_of(ph, from as int, 0, 0, 0));
        }
        let attacks = piece_attacks(pos, pt, from);
        let mut targets = attacks & !pos.occ[us.idx()] & ctx.checkmask;
        if ctx.is_pinned[from as usize] {
            targets = targets & ctx.pin_mask[from as usize];
        }
        proof {
            let f = from as int;
            assert(own(b, f));
            assert forall|t: int| #[trigger] on(targets, t) <==> piece_reaches(
                pt,
                us,
                f,
                t,
                occupied(b.squares),
            ) && valid(t) && !own(b, t) && evades(b, t) && keeps_pin(b, f, t) by {
                if valid(t) {
                    assert(on(pos.occ[us.index()], t) <==> own(b, t));
                    assert(keeps_pin(b, f, t) <==> (ctx.is_pinned[f] ==> on(ctx.pin_mask[f], t)));
                }
            }
        }
        gen_targets(pos, pt, from, targets, list, Ghost(base));
        proof {
            low = from + 1;
        }
    }
    proof {
        assert forall|n: Move| #[trigger] legal(b, n) implies !(key_of(ph, low, 0, 0, 0) <= move_key(
            n.parts(),
        ) < key_of(ph + 1, 0, 0, 0, 0)) by {
            key_order(b, n, ph, low, 0, 0, 0);
            key_order(b, n, ph + 1, 0, 0, 0, 0);
            legal_ranges(b, n);
            if phase(n.parts()) == ph && n.parts().from >= low {
                officer_legal(b, n, pt);
                assert(on(all, n.parts().from));
                assert(!on(0u64, n.parts().from));
            }
        }
        grown_skip(list@, base, b, key_of(ph, low, 0, 0, 0), key_of(ph + 1, 0, 0, 0, 0));
    }
}

/// A move from its parts.
pub open spec fn move_of(
    from: int,
    to: int,
    flag: MoveFlag,
    piece: PieceType,
    captured: PieceType,
) -> Move {
    packed(MoveParts { from, to, flag, piece, captured })
}

/// The moves of a pawn to one square: four promotions on the last rank, else
/// one move.
pub open spec fn pawn_variants(
    from: int,
    to: int,
    promoting: bool,
    is_capture: bool,
    captured: PieceType,
) -> Seq<Move> {
    let pawn = PieceType::Pawn;
    if promoting && is_capture {
        seq![
            move_of(from, to, MoveFlag::PromoCaptureQ, pawn, captured),
            move_of(from, to, MoveFlag::PromoCaptureR, pawn, captured),
            move_of(from, to, MoveFlag::PromoCaptureB, pawn, captured),
            move_of(from, to, MoveFlag::PromoCaptureN, pawn, captured),
        ]
    } else if promoting {
        seq![
            move_of(from, to, MoveFlag::PromoQ, pawn, captured),
            move_of(from, to, MoveFlag::PromoR, pawn, captured),
            move_of(from, to, MoveFlag::PromoB, pawn, captured),
            move_of(from, to, MoveFlag::PromoN, pawn, captured),
        ]
    } else if is_capture {
        seq![move_of(from, to, MoveFlag::Capture, pawn, captured)]
    } else {
        seq![move_of(from, to, MoveFlag::Quiet, pawn, PieceType::NoPiece)]
    }
}

/// Appends the moves of a pawn to one square.
pub(crate) fn push_pawn_move(
    list: &mut MoveList,
    from: u8,
    to: u8,
    promo_rank: u8,
    is_capture: bool,
    captured: PieceType,
)
    requires
        from < 64,
        to < 64,
    ensures
        final(list)@ == old(list)@ + pawn_variants(
            from as int,
            to as int,
            rank(to as int) == promo_rank,
            is_capture,
            captured,
        ),
{
    let ghost before = list@;
    if rank_of(to) == promo_rank {
        let flags: [MoveFlag; 4] = if is_capture {
            [
                MoveFlag::PromoCaptureQ,
                MoveFlag::PromoCaptureR,
                MoveFlag::PromoCaptureB,
                MoveFlag::PromoCaptureN,
            ]
        } else {
            [MoveFlag::PromoQ, MoveFlag::PromoR, MoveFlag::PromoB, MoveFlag::PromoN]
        };
        list.push(Move::new(from, to, flags[0], PieceType::Pawn, captured));
        list.push(Move::new(from, to, flags[1], PieceType::Pawn, captured));
        list.push(Move::new(from, to, flags[2], PieceType::Pawn, captured));
        list.push(Move::new(from, to, flags[3], PieceType::Pawn, captured));
    } else if is_capture {
        list.push(Move::new(from, to, MoveFlag::Capture, PieceType::Pawn, captured));
    } else {
        list.push(Move::new(from, to, MoveFlag::Quiet, PieceType::Pawn, PieceType::NoPiece));
    }
    proof {
        assert(list@ =~= before + pawn_variants(
            from as int,
            to as int,
            rank(to as int) == promo_rank,
            is_capture,
            captured,
        ));
    }
}

/// A pawn may go to `to`, by a push or by a capture, and the king stays safe.
spec fn pawn_may(b: Board, from: int, to: int, is_capture: bool, captured: PieceType) -> bool {
    &&& valid(from)
    &&& valid(to)
    &&& b.squares[from] == Some((b.side, PieceType::Pawn))
    &&& if is_capture {
        pawn_reaches(b.side == Color::White, from, to) && b.squares[to] == Some(
            (b.side.other(), captured),
        )
    } else {
        to == from + pawn_up(b.side) && b.squares[to] is None && captured == PieceType::NoPiece
    }
    &&& evades(b, to)
    &&& keeps_pin(b, from, to)
}

spec fn push_kind(is_capture: bool) -> int {
    if is_capture {
        2
    } else {
        0
    }
}

/// One variant of a pawn move is the next legal move.
proof fn pawn_variant_legal(
    list: Seq<Move>,
    base: Seq<Move>,
    b: Board,
    from: int,
    to: int,
    flag: MoveFlag,
    is_capture: bool,
    captured: PieceType,
    pr: int,
)
    requires
        board_wf(b),
        pawn_may(b, from, to, is_capture, captured),
        ({
            let p = MoveParts { from, to, flag, piece: PieceType::Pawn, captured };
            pawn_flag(b.side, p, is_capture) && promotion_rank(p) == pr
        }),
        grown(list, base, b, key_of(1, from, push_kind(is_capture), to, pr)),
    ensures
        grown(
            list.push(move_of(from, to, flag, PieceType::Pawn, captured)),
            base,
            b,
            key_of(1, from, push_kind(is_capture), to, pr + 1),
        ),
{
    let p = MoveParts { from, to, flag, piece: PieceType::Pawn, captured };
    let m = packed(p);
    packed_parts(p);
    assert(pseudo_legal(b, p));
    piece_move_safe(b, p);
    assert(legal(b, m));
    grown_try(list, base, b, m);
}

/// All variants of a pawn move are the next legal moves.
proof fn pawn_variants_legal(
    list: Seq<Move>,
    base: Seq<Move>,
    b: Board,
    from: int,
    to: int,
    is_capture: bool,
    captured: PieceType,
)
    requires
        board_wf(b),
        pawn_may(b, from, to, is_capture, captured),
        grown(list, base, b, key_of(1, from, push_kind(is_capture), to, 0)),
    ensures
        grown(
            list + pawn_variants(
                from,
                to,
                rank(to) == promo_rank(b.side),
                is_capture,
                captured,
            ),
            base,
            b,
            key_of(1, from, push_kind(is_capture), to + 1, 0),
        ),
{
    let kd = push_kind(is_capture);
    let promoting = rank(to) == promo_rank(b.side);
    let vs = pawn_variants(from, to, promoting, is_capture, captured);
    let end = list + vs;
    if promoting {
        let fq = if is_capture {
            MoveFlag::PromoCaptureQ
        } else {
            MoveFlag::PromoQ
        };
        let fr = if is_capture {
            MoveFlag::PromoCaptureR
        } else {
            MoveFlag::PromoR
        };
        let fb = if is_capture {
            MoveFlag::PromoCaptureB
        } else {
            MoveFlag::PromoB
        };
        let fnn = if is_capture {
            MoveFlag::PromoCaptureN
        } else {
            MoveFlag::PromoN
        };
        pawn_variant_legal(list, base, b, from, to, fq, is_capture, captured, 0);
        let l1 = list.push(move_of(from, to, fq, PieceType::Pawn, captured));
        pawn_variant_legal(l1, base, b, from, to, fr, is_capture, captured, 1);
        let l2 = l1.push(move_of(from, to, fr, PieceType::Pawn, captured));
        pawn_variant_legal(l2, base, b, from, to, fb, is_capture, captured, 2);
        let l3 = l2.push(move_of(from, to, fb, PieceType::Pawn, captured));
        pawn_variant_legal(l3, base, b, from, to, fnn, is_capture, captured, 3);
        let l4 = l3.push(move_of(from, to, fnn, PieceType::Pawn, captured));
        assert(end =~= l4);
        skip_promotions(end, base, b, from, kd, to, 4);
    } else {
        let flag = if is_capture {
            MoveFlag::Capture
        } else {
            MoveFlag::Quiet
        };
        pawn_variant_legal(list, base, b, from, to, flag, is_capture, captured, 0);
        let l1 = list.push(move_of(from, to, flag, PieceType::Pawn, captured));
        assert(end =~= l1);
        assert forall|n: Move| #[trigger] legal(b, n) implies !(key_of(1, from, kd, to, 1)
            <= move_key(n.parts()) < key_of(1, from, kd, to + 1, 0)) by {
            key_order(b, n, 1, from, kd, to, 1);
            key_order(b, n, 1, from, kd, to + 1, 0);
            legal_ranges(b, n);
            if phase(n.parts()) == 1 && n.parts().to == to {
                assert(!n.parts().flag.promotes());
            }
        }
        grown_skip(end, base, b, key_of(1, from, kd, to, 1), key_of(1, from, kd, to + 1, 0));
    }
}

proof fn skip_promotions(
    list: Seq<Move>,
    base: Seq<Move>,
    b: Board,
    from: int,
    kd: int,
    to: int,
    pr: int,
)
    requires
        grown(list, base, b, key_of(1, from, kd, to, pr)),
        pr == 4,
        valid(from),
        valid(to),
        0 <= kd < 4,
    ensures
        grown(list, base, b, key_of(1, from, kd, to + 1, 0)),
{
    assert forall|n: Move| #[trigger] legal(b, n) implies !(key_of(1, from, kd, to, pr) <= move_key(
        n.parts(),
    ) < key_of(1, from, kd, to + 1, 0)) by {
        key_order(b, n, 1, from, kd, to, pr);
        key_order(b, n, 1, from, kd, to + 1, 0);
        legal_ranges(b, n);
    }
    grown_skip(list, base, b, key_of(1, from, kd, to, pr), key_of(1, from, kd, to + 1, 0));
}

/// What a legal pawn move looks like.
proof fn pawn_legal(b: Board, n: Move)
    requires
        board_wf(b),
        legal(b, n),
        phase(n.parts()) == 1,
    ensures
        ({
            let p = n.parts();
            &&& p.piece == PieceType::Pawn
            &&& b.squares[p.from] == Some((b.side, PieceType::Pawn))
            &&& kind(p) == 0 <==> pawn_pushes(b, p)
            &&& kind(p) == 1 <==> pawn_double_pushes(b, p)
            &&& kind(p) == 2 <==> pawn_captures(b, p)
            &&& kind(p) == 3 <==> pawn_takes_ep(b, p)
            &&& kind(p) != 3 ==> evades(b, p.to) && keeps_pin(b, p.from, p.to)
        }),
{
    let p = n.parts();
    assert(p.piece.index() == 0);
    if p.flag != MoveFlag::EpCapture {
        piece_move_safe(b, p);
    }
}

/// The pin and check tests of one destination.
fn may_go(ctx: &GenContext, from: u8, to: u8, Ghost(b): Ghost<Board>) -> (r: bool)
    requires
        ctx.describes(b),
        ctx.num_checkers <= 1,
        from < 64,
        to < 64,
        own(b, from as int),
    ensures
        r == (evades(b, to as int) && keeps_pin(b, from as int, to as int)),
{
    proof {
        member_test(ctx.checkmask, to);
        member_test(ctx.pin_mask[from as int], to);
        assert(keeps_pin(b, from as int, to as int) <==> (ctx.is_pinned[from as int] ==> on(
            ctx.pin_mask[from as int],
            to as int,
        )));
        assert(on(ctx.checkmask, to as int) <==> evades(b, to as int));
    }
    ctx.checkmask & bit(to) != 0 && (!ctx.is_pinned[from as usize] || ctx.pin_mask[from as usize] & bit(
        to,
    ) != 0)
}

/// Lists the single push of a pawn.
fn gen_pawn_push(
    pos: &Position,
    us: Color,
    from: u8,
    ctx: &GenContext,
    list: &mut MoveList,
    Ghost(base): Ghost<Seq<Move>>,
) -> (one: Option<u8>)
    requires
        pos.wf(),
        board_wf(pos@),
        us == pos.side_to_move,
        from < 64,
        pos.mailbox@[from as int] == Some((us, PieceType::Pawn)),
        ctx.describes(pos@),
        ctx.num_checkers <= 1,
        grown(old(list)@, base, pos@, key_of(1, from as int, 0, 0, 0)),
    ensures
        grown(final(list)@, base, pos@, key_of(1, from as int, 1, 0, 0)),
        match one {
            Some(s) => valid(from + pawn_up(us)) && s == from + pawn_up(us) && pos.mailbox@[s as int] is None,
            None => !(valid(from + pawn_up(us)) && pos.mailbox@[from + pawn_up(us)] is None),
        },
{
    let ghost b = pos@;
    let ghost f = from as int;
    let is_white = us == Color::White;
    let promo: u8 = if is_white {
        7
    } else {
        0
    };
    let ghost up = f + pawn_up(us);
    let in_range = if is_white {
        from < 56
    } else {
        from >= 8
    };
    let mut one: Option<u8> = None;
    if in_range {
        let to: u8 = if is_white {
            from + 8
        } else {
            from - 8
        };
        if pos.piece_at(to).is_none() {
            one = Some(to);
            if may_go(ctx, from, to, Ghost(b)) {
                proof {
                    assert forall|n: Move| #[trigger] legal(b, n) implies !(key_of(1, f, 0, 0, 0)
                        <= move_key(n.parts()) < key_of(1, f, 0, to as int, 0)) by {
                        key_order(b, n, 1, f, 0, 0, 0);
                        key_order(b, n, 1, f, 0, to as int, 0);
                        legal_ranges(b, n);
                        if phase(n.parts()) == 1 {
                            pawn_legal(b, n);
                        }
                    }
                    grown_skip(list@, base, b, key_of(1, f, 0, 0, 0), key_of(1, f, 0, to as int, 0));
                    pawn_variants_legal(list@, base, b, f, to as int, false, PieceType::NoPiece);
                }
                push_pawn_move(list, from, to, promo, false, PieceType::NoPiece);
                proof {
                    assert forall|n: Move| #[trigger] legal(b, n) implies !(key_of(1, f, 0, to + 1, 0)
                        <= move_key(n.parts()) < key_of(1, f, 1, 0, 0)) by {
                        key_order(b, n, 1, f, 0, to + 1, 0);
                        key_order(b, n, 1, f, 1, 0, 0);
                        legal_ranges(b, n);
                        if phase(n.parts()) == 1 {
                            pawn_legal(b, n);
                        }
                    }
                    grown_skip(list@, base, b, key_of(1, f, 0, to + 1, 0), key_of(1, f, 1, 0, 0));
                }
                return one;
            }
        }
    }
    proof {
        assert forall|n: Move| #[trigger] legal(b, n) implies !(key_of(1, f, 0, 0, 0) <= move_key(
            n.parts(),
        ) < key_of(1, f, 1, 0, 0)) by {
            key_order(b, n, 1, f, 0, 0, 0);
            key_order(b, n, 1, f, 1, 0, 0);
            legal_ranges(b, n);
            if phase(n.parts()) == 1 {
                pawn_legal(b, n);
            }
        }
        grown_skip(list@, base, b, key_of(1, f, 0, 0, 0), key_of(1, f, 1, 0, 0));
    }
    one
}

/// Lists the double push of a pawn; `one` is the free square in front of it.
fn gen_pawn_double(
    pos: &Position,
    us: Color,
    from: u8,
    one: Option<u8>,
    ctx: &GenContext,
    list: &mut MoveList,
    Ghost(base): Ghost<Seq<Move>>,
)
    requires
        pos.wf(),
        board_wf(pos@),
        us == pos.side_to_move,
        from < 64,
        pos.mailbox@[from as int] == Some((us, PieceType::Pawn)),
        ctx.describes(pos@),
        ctx.num_checkers <= 1,
        match one {
            Some(s) => valid(from + pawn_up(us)) && s == from + pawn_up(us) && pos.mailbox@[s as int] is None,
            None => !(valid(from + pawn_up(us)) && pos.mailbox@[from + pawn_up(us)] is None),
        },
        grown(old(list)@, base, pos@, key_of(1, from as int, 1, 0, 0)),
    ensures
        grown(final(list)@, base, pos@, key_of(1, from as int, 2, 0, 0)),
{
    let ghost b = pos@;
    let ghost f = from as int;
    let is_white = us == Color::White;
    let start: u8 = if is_white {
        1
    } else {
        6
    };
    if let Some(step) = one {
        if rank_of(from) == start {
            let to: u8 = if is_white {
                step + 8
            } else {
                step - 8
            };
            if pos.piece_at(to).is_none() && may_go(ctx, from, to, Ghost(b)) {
                let m = Move::new(
                    from,
                    to,
                    MoveFlag::DoublePawnPush,
                    PieceType::Pawn,
                    PieceType::NoPiece,
                );
                proof {
                    assert forall|n: Move| #[trigger] legal(b, n) implies !(key_of(1, f, 1, 0, 0)
                        <= move_key(n.parts()) < key_of(1, f, 1, to as int, 0)) by {
                        key_order(b, n, 1, f, 1, 0, 0);
                        key_order(b, n, 1, f, 1, to as int, 0);
                        legal_ranges(b, n);
                        if phase(n.parts()) == 1 {
                            pawn_legal(b, n);
                        }
                    }
                    grown_skip(list@, base, b, key_of(1, f, 1, 0, 0), key_of(1, f, 1, to as int, 0));
                    assert(pawn_double_pushes(b, m.parts()));
                    assert(pseudo_legal(b, m.parts()));
                    piece_move_safe(b, m.parts());
                    assert(legal(b, m));
                    assert(move_key(m.parts()) == key_of(1, f, 1, to as int, 0));
                    grown_try(list@, base, b, m);
                }
                list.push(m);
                proof {
                    assert forall|n: Move| #[trigger] legal(b, n) implies !(key_of(1, f, 1, to as int, 1)
                        <= move_key(n.parts()) < key_of(1, f, 2, 0, 0)) by {
                        key_order(b, n, 1, f, 1, to as int, 1);
                        key_order(b, n, 1, f, 2, 0, 0);
                        legal_ranges(b, n);
                        if phase(n.parts()) == 1 {
                            pawn_legal(b, n);
                        }
                    }
                    grown_skip(list@, base, b, key_of(1, f, 1, to as int, 1), key_of(1, f, 2, 0, 0));
                }
                return;
            }
        }
    }
    proof {
        assert forall|n: Move| #[trigger] legal(b, n) implies !(key_of(1, f, 1, 0, 0) <= move_key(
            n.parts(),
        ) < key_of(1, f, 2, 0, 0)) by {
            key_order(b, n, 1, f, 1, 0, 0);
            key_order(b, n, 1, f, 2, 0, 0);
            legal_ranges(b, n);
            if phase(n.parts()) == 1 {
                pawn_legal(b, n);
            }
        }
        grown_skip(list@, base, b, key_of(1, f, 1, 0, 0), key_of(1, f, 2, 0, 0));
    }
}

/// Lists the captures of a pawn.
fn gen_pawn_captures(
    pos: &Position,
    us: Color,
    from: u8,
    ctx: &GenContext,
    list: &mut MoveList,
    Ghost(base): Ghost<Seq<Move>>,
)
    requires
        pos.wf(),
        board_wf(pos@),
        us == pos.side_to_move,
        from < 64,
        pos.mailbox@[from as int] == Some((us, PieceType::Pawn)),
        ctx.describes(pos@),
        ctx.num_checkers <= 1,
        grown(old(list)@, base, pos@, key_of(1, from as int, 2, 0, 0)),
    ensures
        grown(final(list)@, base, pos@, key_of(1, from as int, 3, 0, 0)),
{
    let ghost b = pos@;
    let ghost f = from as int;
    let is_white = us == Color::White;
    let them = us.opponent();
    let promo: u8 = if is_white {
        7
    } else {
        0
    };
    let attacks = pawn_attacks(&pos.ctx.attacks, is_white, from) & pos.occ[them.idx()];
    proof {
        assert forall|s: int| #[trigger] on(attacks, s) <==> pawn_reaches(is_white, f, s) && (
        b.squares[s] matches Some((c, _)) && c == them) by {
            if valid(s) {
                assert(on(pos.occ[them.index()], s) <==> (pos.mailbox@[s] matches Some((d, _)) && d
                    == them));
            }
        }
    }
    let mut a = attacks;
    let ghost mut low: int = 0;
    while a != 0
        invariant
            pos.wf(),
            board_wf(b),
            b == pos@,
            us == b.side,
            them == us.other(),
            is_white == (us == Color::White),
            promo == promo_rank(us),
            from < 64,
            f == from,
            b.squares[f] == Some((us, PieceType::Pawn)),
            ctx.describes(b),
            ctx.num_checkers <= 1,
            0 <= low <= 64,
            forall|s: int| #[trigger]
                on(attacks, s) <==> pawn_reaches(is_white, f, s) && (b.squares[s] matches Some(
                    (c, _),
                ) && c == them),
            forall|s: int| #[trigger] on(a, s) <==> on(attacks, s) && s >= low,
            grown(list@, base, b, key_of(1, f, 2, low, 0)),
        decreases a,
    {
        let ghost rest = a;
        let to = pop_lsb(&mut a);
        proof {
            assert forall|n: Move| #[trigger] legal(b, n) implies !(key_of(1, f, 2, low, 0)
                <= move_key(n.parts()) < key_of(1, f, 2, to as int, 0)) by {
                key_order(b, n, 1, f, 2, low, 0);
                key_order(b, n, 1, f, 2, to as int, 0);
                legal_ranges(b, n);
                if phase(n.parts()) == 1 {
                    pawn_legal(b, n);
                    if n.parts().from == f && kind(n.parts()) == 2 && n.parts().to >= low {
                        assert(on(attacks, n.parts().to));
                        assert(on(rest, n.parts().to));
                    }
                }
            }
            grown_skip(list@, base, b, key_of(1, f, 2, low, 0), key_of(1, f, 2, to as int, 0));
            assert(on(attacks, to as int));
        }
        let mut pushed = false;
        if may_go(ctx, from, to, Ghost(b)) {
            if let Some((_, captured)) = pos.piece_at(to) {
                proof {
                    pawn_variants_legal(list@, base, b, f, to as int, true, captured);
                }
                push_pawn_move(list, from, to, promo, true, captured);
                pushed = true;
            }
        }
        proof {
            if !pushed {
                assert forall|n: Move| #[trigger] legal(b, n) implies !(key_of(1, f, 2, to as int, 0)
                    <= move_key(n.parts()) < key_of(1, f, 2, to + 1, 0)) by {
                    key_order(b, n, 1, f, 2, to as int, 0);
                    key_order(b, n, 1, f, 2, to + 1, 0);
                    legal_ranges(b, n);
                    if phase(n.parts()) == 1 {
                        pawn_legal(b, n);
                    }
                }
                grown_skip(
                    list@,
                    base,
                    b,
                    key_of(1, f, 2, to as int, 0),
                    key_of(1, f, 2, to + 1, 0),
                );
            }
            low = to + 1;
        }
    }
    proof {
        assert forall|n: Move| #[trigger] legal(b, n) implies !(key_of(1, f, 2, low, 0) <= move_key(
            n.parts(),
        ) < key_of(1, f, 3, 0, 0)) by {
            key_order(b, n, 1, f, 2, low, 0);
            key_order(b, n, 1, f, 3, 0, 0);
            legal_ranges(b, n);
            if phase(n.parts()) == 1 {
                pawn_legal(b, n);
                if n.parts().from == f && kind(n.parts()) == 2 && n.parts().to >= low {
                    assert(on(attacks, n.parts().to));
                    assert(!on(0u64, n.parts().to));
                }
            }
        }
        grown_skip(list@, base, b, key_of(1, f, 2, low, 0), key_of(1, f, 3, 0, 0));
    }
}

/// What stands on a square, in a form that can be compared.
pub(crate) fn holds_piece(x: Option<(Color, PieceType)>, color: Color, pt: PieceType) -> (r: bool)
    ensures
        r == (x == Some((color, pt))),
{
    match x {
        Some((c, q)) => c == color && q == pt,
        None => false,
    }
}

/// Whether a square is one to capture on en passant.
pub(crate) fn is_ep_target(pos: &Position, e: u8) -> (r: bool)
    ensures
        r == ep_target_ok(pos@, e as int),
{
    if e >= 64 || pos.piece_at(e).is_some() {
        return false;
    }
    match pos.side_to_move {
        Color::White => rank_of(e) == 5 && holds_piece(
            pos.piece_at(e - 8),
            Color::Black,
            PieceType::Pawn,
        ),
        Color::Black => rank_of(e) == 2 && holds_piece(
            pos.piece_at(e + 8),
            Color::White,
            PieceType::Pawn,
        ),
    }
}

/// Lists the en-passant capture of a pawn.
///
/// Both pawns leave their squares, so the king's safety is tested on the
/// squares as they are afterwards; the captured pawn no longer gives check.
fn gen_pawn_ep(
    pos: &Position,
    us: Color,
    from: u8,
    list: &mut MoveList,
    Ghost(base): Ghost<Seq<Move>>,
)
    requires
        pos.wf(),
        board_wf(pos@),
        us == pos.side_to_move,
        from < 64,
        pos.mailbox@[from as int] == Some((us, PieceType::Pawn)),
        grown(old(list)@, base, pos@, key_of(1, from as int, 3, 0, 0)),
    ensures
        grown(final(list)@, base, pos@, key_of(1, from + 1, 0, 0, 0)),
{
    let ghost b = pos@;
    let ghost f = from as int;
    let is_white = us == Color::White;
    let them = us.opponent();
    let mut tried = false;
    if let Some(epsq) = pos.ep_square {
        let attacks = pawn_attacks(&pos.ctx.attacks, is_white, from);
        proof {
            if epsq < 64 {
                member_test(attacks, epsq);
            }
        }
        if is_ep_target(pos, epsq) && attacks & bit(epsq) != 0 {
            tried = true;
            let captured_pawn_sq = sq(rank_of(from), file_of(epsq));
            let occ_after = (pos.occ_all & !bit(from) & !bit(captured_pawn_sq)) | bit(epsq);
            let ksq = pos.king_square[us.idx()];
            proof {
                assert(king_at_home(b, us));
            }
            let found = attackers_of(pos, them, ksq, occ_after);
            let attackers = found & !bit(captured_pawn_sq);
            let m = Move::new(from, epsq, MoveFlag::EpCapture, PieceType::Pawn, PieceType::Pawn);
            let ghost p = m.parts();
            proof {
                assert(pawn_takes_ep(b, p));
                assert(pseudo_legal(b, p));
                assert(ep_victim(p) == captured_pawn_sq);
                let occ2 = occupied(squares_after(b, p));
                assert forall|s: int| 0 <= s < 64 implies flags(occ_after)[s] == occ2[s] by {
                    assert(on(pos.occ_all, s) <==> pos.mailbox@[s] is Some);
                }
                assert(flags(occ_after) =~= occ2);
                ep_safe(b, p, occ2);
                if attackers == 0 {
                    assert forall|s: int|
                        s != ep_victim(p) implies !#[trigger] attacks_from(
                        b.squares,
                        them,
                        s,
                        our_king(b),
                        occ2,
                    ) by {
                        if attacks_from(b.squares, them, s, our_king(b), occ2) {
                            assert(on(found, s));
                            assert(on(attackers, s));
                            assert(!on(0u64, s));
                        }
                    }
                } else {
                    lowest(attackers);
                    let s = vstd::std_specs::bits::u64_trailing_zeros(attackers) as int;
                    assert(on(found, s) && s != ep_victim(p));
                    assert(attacks_from(b.squares, them, s, our_king(b), occ2));
                }
                assert(legal(b, m) <==> attackers == 0);
                assert(move_key(p) == key_of(1, f, 3, epsq as int, 0));
                assert forall|n: Move| #[trigger] legal(b, n) implies !(key_of(1, f, 3, 0, 0)
                    <= move_key(n.parts()) < key_of(1, f, 3, epsq as int, 0)) by {
                    key_order(b, n, 1, f, 3, 0, 0);
                    key_order(b, n, 1, f, 3, epsq as int, 0);
                    legal_ranges(b, n);
                    if phase(n.parts()) == 1 {
                        pawn_legal(b, n);
                    }
                }
                grown_skip(list@, base, b, key_of(1, f, 3, 0, 0), key_of(1, f, 3, epsq as int, 0));
                grown_try(list@, base, b, m);
            }
            if attackers == 0 {
                list.push(m);
            }
            proof {
                assert forall|n: Move| #[trigger] legal(b, n) implies !(key_of(1, f, 3, epsq as int, 1)
                    <= move_key(n.parts()) < key_of(1, f + 1, 0, 0, 0)) by {
                    key_order(b, n, 1, f, 3, epsq as int, 1);
                    key_order(b, n, 1, f + 1, 0, 0, 0);
                    legal_ranges(b, n);
                    if phase(n.parts()) == 1 {
                        pawn_legal(b, n);
                    }
                }
                grown_skip(
                    list@,
                    base,
                    b,
                    key_of(1, f, 3, epsq as int, 1),
                    key_of(1, f + 1, 0, 0, 0),
                );
            }
        }
    }
    proof {
        if !tried {
            assert forall|n: Move| #[trigger] legal(b, n) implies !(key_of(1, f, 3, 0, 0) <= move_key(
                n.parts(),
            ) < key_of(1, f + 1, 0, 0, 0)) by {
                key_order(b, n, 1, f, 3, 0, 0);
                key_order(b, n, 1, f + 1, 0, 0, 0);
                legal_ranges(b, n);
                if phase(n.parts()) == 1 {
                    pawn_legal(b, n);
                }
            }
            grown_skip(list@, base, b, key_of(1, f, 3, 0, 0), key_of(1, f + 1, 0, 0, 0));
        }
    }
}

/// Lists the pawn moves.
fn gen_pawn_moves(
    pos: &Position,
    us: Color,
    ctx: &GenContext,
    list: &mut MoveList,
    Ghost(base): Ghost<Seq<Move>>,
)
    requires
        pos.wf(),
        board_wf(pos@),
        us == pos.side_to_move,
        ctx.describes(pos@),
        ctx.num_checkers <= 1,
        grown(old(list)@, base, pos@, key_of(1, 0, 0, 0, 0)),
    ensures
        grown(final(list)@, base, pos@, key_of(2, 0, 0, 0, 0)),
{
    let ghost b = pos@;
    let all = pos.pieces[us.idx()][PieceType::Pawn.idx()];
    let mut pawns = all;
    let ghost mut low: int = 0;
    proof {
        assert forall|s: int| #[trigger] on(all, s) <==> valid(s) && b.squares[s] == Some(
            (us, PieceType::Pawn),
        ) by {
            if valid(s) {
                assert(on(pos.pieces[us.index()][PieceType::Pawn.index()], s) <==> pos.mailbox@[s]
                    == Some((us, PieceType::Pawn)));
            }
        }
    }
    while pawns != 0
        invariant
            pos.wf(),
            board_wf(b),
            b == pos@,
            us == b.side,
            ctx.describes(b),
            ctx.num_checkers <= 1,
            0 <= low <= 64,
            forall|s: int| #[trigger]
                on(all, s) <==> valid(s) && b.squares[s] == Some((us, PieceType::Pawn)),
            forall|s: int| #[trigger] on(pawns, s) <==> on(all, s) && s >= low,
            grown(list@, base, b, key_of(1, low, 0, 0, 0)),
        decreases pawns,
    {
        let ghost rest = pawns;
        let from = pop_lsb(&mut pawns);
        proof {
            assert forall|n: Move| #[trigger] legal(b, n) implies !(key_of(1, low, 0, 0, 0)
                <= move_key(n.parts()) < key_of(1, from as int, 0, 0, 0)) by {
                key_order(b, n, 1, low, 0, 0, 0);
                key_order(b, n, 1, from as int, 0, 0, 0);
                legal_ranges(b, n);
                if phase(n.parts()) == 1 && n.parts().from >= low {
                    pawn_legal(b, n);
                    assert(on(all, n.parts().from));
                    assert(on(rest, n.parts().from));
                }
            }
            grown_skip(list@, base, b, key_of(1, low, 0, 0, 0), key_of(1, from as int, 0, 0, 0));
            assert(on(all, from as int));
        }
        let one = gen_pawn_push(pos, us, from, ctx, list, Ghost(base));
        gen_pawn_double(pos, us, from, one, ctx, list, Ghost(base));
        gen_pawn_captures(pos, us, from, ctx, list, Ghost(base));
        gen_pawn_ep(pos, us, from, list, Ghost(base));
        proof {
            low = from + 1;
        }
    }
    proof {
        assert forall|n: Move| #[trigger] legal(b, n) implies !(key_of(1, low, 0, 0, 0) <= move_key(
            n.parts(),
        ) < key_of(2, 0, 0, 0, 0)) by {
            key_order(b, n, 1, low, 0, 0, 0);
            key_order(b, n, 2, 0, 0, 0, 0);
            legal_ranges(b, n);
            if phase(n.parts()) == 1 && n.parts().from >= low {
                pawn_legal(b, n);
                assert(on(all, n.parts().from));
                assert(!on(0u64, n.parts().from));
            }
        }
        grown_skip(list@, base, b, key_of(1, low, 0, 0, 0), key_of(2, 0, 0, 0, 0));
    }
}

/// Whether no enemy piece attacks a square.
fn is_safe(pos: &Position, them: Color, square: u8) -> (r: bool)
    requires
        pos.masks_wf(),
        square < 64,
        them == pos.side_to_move.other(),
    ensures
        r == safe_square(pos@, square as int),
{
    proof {
        occ_all_flags(pos);
    }
    let attackers = attackers_of(pos, them, square, pos.occ_all);
    proof {
        attack_mask(attackers, pos.mailbox@, them, square as int, occupied(pos.mailbox@));
    }
    attackers == 0
}

/// Tries one castling move.
fn try_castle(
    pos: &Position,
    us: Color,
    kingside: bool,
    list: &mut MoveList,
    Ghost(base): Ghost<Seq<Move>>,
)
    requires
        pos.wf(),
        board_wf(pos@),
        us == pos.side_to_move,
        our_king(pos@) == at(home_rank(us), 4),
        grown(
            old(list)@,
            base,
            pos@,
            key_of(
                6,
                our_king(pos@),
                if kingside {
                    0
                } else {
                    1
                },
                0,
                0,
            ),
        ),
    ensures
        grown(
            final(list)@,
            base,
            pos@,
            key_of(
                6,
                our_king(pos@),
                if kingside {
                    1
                } else {
                    2
                },
                0,
                0,
            ),
        ),
{
    let ghost b = pos@;
    let ghost k = our_king(b);
    let them = us.opponent();
    let (right, home) = match (us, kingside) {
        (Color::White, true) => (CR_WK, 0u8),
        (Color::White, false) => (CR_WQ, 0u8),
        (Color::Black, true) => (CR_BK, 7u8),
        (Color::Black, false) => (CR_BQ, 7u8),
    };
    let from = sq(home, 4);
    let to = if kingside {
        sq(home, 6)
    } else {
        sq(home, 2)
    };
    let across = if kingside {
        sq(home, 5)
    } else {
        sq(home, 3)
    };
    let corner = if kingside {
        sq(home, 7)
    } else {
        sq(home, 0)
    };
    let rook_ok = match pos.piece_at(corner) {
        Some((c, PieceType::Rook)) => c == us,
        _ => false,
    };
    let free = pos.piece_at(across).is_none() && pos.piece_at(to).is_none() && (kingside
        || pos.piece_at(sq(home, 1)).is_none());
    let allowed = pos.castling_rights & right != 0 && rook_ok && free && is_safe(pos, them, from)
        && is_safe(pos, them, across) && is_safe(pos, them, to);
    let ghost kd = if kingside {
        0int
    } else {
        1int
    };
    let flag = if kingside {
        MoveFlag::KingCastle
    } else {
        MoveFlag::QueenCastle
    };
    proof {
        assert forall|n: Move|
            #[trigger] legal(b, n) && phase(n.parts()) == 6 && kind(n.parts()) == kd implies allowed
            && n.parts().to == to by {
            assert(castles(b, n.parts()));
        }
    }
    if allowed {
        let m = Move::new(from, to, flag, PieceType::King, PieceType::NoPiece);
        proof {
            assert(king_at_home(b, us));
            assert(castles(b, m.parts()));
            assert(pseudo_legal(b, m.parts()));
            castling_safe(b, m.parts());
            assert(legal(b, m));
            assert(move_key(m.parts()) == key_of(6, k, kd, to as int, 0));
            assert forall|n: Move| #[trigger] legal(b, n) implies !(key_of(6, k, kd, 0, 0)
                <= move_key(n.parts()) < key_of(6, k, kd, to as int, 0)) by {
                key_order(b, n, 6, k, kd, 0, 0);
                key_order(b, n, 6, k, kd, to as int, 0);
                legal_ranges(b, n);
            }
            grown_skip(list@, base, b, key_of(6, k, kd, 0, 0), key_of(6, k, kd, to as int, 0));
            grown_try(list@, base, b, m);
        }
        list.push(m);
        proof {
            assert forall|n: Move| #[trigger] legal(b, n) implies !(key_of(6, k, kd, to as int, 1)
                <= move_key(n.parts()) < key_of(6, k, kd + 1, 0, 0)) by {
                key_order(b, n, 6, k, kd, to as int, 1);
                key_order(b, n, 6, k, kd + 1, 0, 0);
                legal_ranges(b, n);
                if phase(n.parts()) == 6 {
                    assert(castles(b, n.parts()));
                }
            }
            grown_skip(list@, base, b, key_of(6, k, kd, to as int, 1), key_of(6, k, kd + 1, 0, 0));
        }
    } else {
        proof {
            assert forall|n: Move| #[trigger] legal(b, n) implies !(key_of(6, k, kd, 0, 0)
                <= move_key(n.parts()) < key_of(6, k, kd + 1, 0, 0)) by {
                key_order(b, n, 6, k, kd, 0, 0);
                key_order(b, n, 6, k, kd + 1, 0, 0);
                legal_ranges(b, n);
            }
            grown_skip(list@, base, b, key_of(6, k, kd, 0, 0), key_of(6, k, kd + 1, 0, 0));
        }
    }
}

/// Lists the castling moves.
fn gen_castling(pos: &Position, us: Color, list: &mut MoveList, Ghost(base): Ghost<Seq<Move>>)
    requires
        pos.wf(),
        board_wf(pos@),
        us == pos.side_to_move,
        grown(old(list)@, base, pos@, key_of(6, 0, 0, 0, 0)),
    ensures
        grown(final(list)@, base, pos@, key_of(7, 0, 0, 0, 0)),
{
    let ghost b = pos@;
    let ghost k = our_king(b);
    let ksq = pos.king_square[us.idx()];
    let home: u8 = match us {
        Color::White => 0,
        Color::Black => 7,
    };
    proof {
        assert(king_at_home(b, us));
        assert forall|n: Move| #[trigger] legal(b, n) && phase(n.parts()) == 6 implies n.parts().from
            == k && k == at(home_rank(us), 4) && kind(n.parts()) < 2 by {
            assert(castles(b, n.parts()));
        }
    }
    if ksq != sq(home, 4) {
        proof {
            assert forall|n: Move| #[trigger] legal(b, n) implies !(key_of(6, 0, 0, 0, 0)
                <= move_key(n.parts()) < key_of(7, 0, 0, 0, 0)) by {
                key_order(b, n, 6, 0, 0, 0, 0);
                key_order(b, n, 7, 0, 0, 0, 0);
                legal_ranges(b, n);
            }
            grown_skip(list@, base, b, key_of(6, 0, 0, 0, 0), key_of(7, 0, 0, 0, 0));
        }
        return;
    }
    proof {
        assert forall|n: Move| #[trigger] legal(b, n) implies !(key_of(6, 0, 0, 0, 0) <= move_key(
            n.parts(),
        ) < key_of(6, k, 0, 0, 0)) by {
            key_order(b, n, 6, 0, 0, 0, 0);
            key_order(b, n, 6, k, 0, 0, 0);
            legal_ranges(b, n);
        }
        grown_skip(list@, base, b, key_of(6, 0, 0, 0, 0), key_of(6, k, 0, 0, 0));
    }
    try_castle(pos, us, true, list, Ghost(base));
    try_castle(pos, us, false, list, Ghost(base));
    proof {
        assert forall|n: Move| #[trigger] legal(b, n) implies !(key_of(6, k, 2, 0, 0) <= move_key(
            n.parts(),
        ) < key_of(7, 0, 0, 0, 0)) by {
            key_order(b, n, 6, k, 2, 0, 0);
            key_order(b, n, 7, 0, 0, 0, 0);
            legal_ranges(b, n);
        }
        grown_skip(list@, base, b, key_of(6, k, 2, 0, 0), key_of(7, 0, 0, 0, 0));
    }
}

/// Appends all legal moves of the side to move.
pub fn generate_legal_moves(pos: &Position, list: &mut MoveList)
    requires
        pos.wf(),
    ensures
        final(list)@ == old(list)@ + legal_moves(pos@),
        lists_all(pos@, legal_moves(pos@)),
{
    let us = pos.side_to_move;
    let them = us.opponent();
    let ghost b = pos@;
    let ghost base = list@;
    let ctx = compute_context(pos, us);
    proof {
        grown_start(base, b);
    }
    gen_king_moves(pos, us, them, list, Ghost(base));
    if ctx.num_checkers >= 2 {
        proof {
            let (s, t) = choose|s: int, t: int|
                s != t && #[trigger] checker(b, s) && #[trigger] checker(b, t);
            assert forall|n: Move| #[trigger] legal(b, n) implies !(key_of(1, 0, 0, 0, 0)
                <= move_key(n.parts()) < 7_000_000) by {
                double_check_king_moves(b, n.parts(), s, t);
                legal_ranges(b, n);
            }
            grown_skip(list@, base, b, key_of(1, 0, 0, 0, 0), 7_000_000);
            grown_end(list@, base, b);
        }
        return;
    }
    gen_pawn_moves(pos, us, &ctx, list, Ghost(base));
    gen_piece_moves(pos, us, PieceType::Knight, &ctx, list, Ghost(base));
    gen_piece_moves(pos, us, PieceType::Bishop, &ctx, list, Ghost(base));
    gen_piece_moves(pos, us, PieceType::Rook, &ctx, list, Ghost(base));
    gen_piece_moves(pos, us, PieceType::Queen, &ctx, list, Ghost(base));
    if ctx.num_checkers == 0 {
        gen_castling(pos, us, list, Ghost(base));
    } else {
        proof {
            let s = choose|s: int| #[trigger] checker(b, s);
            assert forall|n: Move| #[trigger] legal(b, n) implies !(key_of(6, 0, 0, 0, 0)
                <= move_key(n.parts()) < 7_000_000) by {
                legal_ranges(b, n);
                key_order(b, n, 6, 0, 0, 0, 0);
                if phase(n.parts()) == 6 {
                    no_castling_in_check(b, n.parts(), s);
                }
            }
            grown_skip(list@, base, b, key_of(6, 0, 0, 0, 0), 7_000_000);
        }
    }
    proof {
        grown_end(list@, base, b);
    }
}

} // verus!
