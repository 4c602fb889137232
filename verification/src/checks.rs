//! Whether a move gives check, found out without making it.
use vstd::prelude::*;
use crate::bitboard::{
    Bitboard, bishop_attacks, bit, file_of, knight_attacks, pawn_attacks, rank_of, rook_attacks,
    sq,
};
use crate::bits::{flags, group_bits, lowest, on};
use crate::geometry::{
    bishop_symmetric, leaper_symmetric, on_ray, rank, ray_valid, rook_symmetric, valid,
};
use crate::legality::legal_keeps_playable;
use crate::movegen::{member_test, occ_all_flags};
use crate::moves::{Move, MoveFlag, MoveParts};
use crate::pieces::{Color, PieceType};
use crate::position::Position;
use crate::rules::{
    Board, after, arriving, at, attacks_from, board_wf, fits, in_check, king_at_home, king_of,
    legal_parts, occupied, piece_reaches, playable,
};
use crate::safety::{aims, attack_forms, leaps, piece_on};

verus! {

broadcast use group_bits;

/// The squares from which a piece of each type would give check to the enemy
/// king, with the board as it is before the move.
#[derive(Clone, Copy)]
pub struct CheckingSquares {
    pub pawn: Bitboard,
    pub knight: Bitboard,
    pub bishop: Bitboard,
    pub rook: Bitboard,
    pub queen: Bitboard,
}

impl CheckingSquares {
    pub open spec fn of(self, pt: PieceType) -> u64 {
        match pt {
            PieceType::Pawn => self.pawn,
            PieceType::Knight => self.knight,
            PieceType::Bishop => self.bishop,
            PieceType::Rook => self.rook,
            PieceType::Queen => self.queen,
            _ => 0,
        }
    }

    /// The masks hold the squares from which `us` gives check.
    pub open spec fn describes(self, b: Board, us: Color) -> bool {
        forall|pt: PieceType, s: int|
            pt != PieceType::King && pt != PieceType::NoPiece ==> (#[trigger] on(self.of(pt), s)
                <==> piece_reaches(pt, us, s, king_of(b, us.other()), occupied(b.squares)))
    }
}

/// Finds the checking squares against the opponent of `us`.
pub fn compute_checking_squares(pos: &Position, us: Color) -> (r: CheckingSquares)
    requires
        pos.wf(),
    ensures
        r.describes(pos@, us),
{
    let them = us.opponent();
    let king_sq = pos.king_square[them.idx()];
    proof {
        assert(king_at_home(pos@, Color::White) && king_at_home(pos@, Color::Black));
        occ_all_flags(pos);
    }
    let occ = pos.occ_all;
    let tables = &pos.ctx.attacks;
    let defender_is_white = us == Color::Black;
    let r = CheckingSquares {
        pawn: pawn_attacks(tables, defender_is_white, king_sq),
        knight: knight_attacks(tables, king_sq),
        bishop: bishop_attacks(tables, king_sq, occ),
        rook: rook_attacks(tables, king_sq, occ),
        queen: bishop_attacks(tables, king_sq, occ) | rook_attacks(tables, king_sq, occ),
    };
    proof {
        let k = king_sq as int;
        assert forall|pt: PieceType, s: int|
            pt != PieceType::King && pt != PieceType::NoPiece implies (#[trigger] on(r.of(pt), s)
            <==> piece_reaches(pt, us, s, k, occupied(pos.mailbox@))) by {
            leaper_symmetric(s, k);
            leaper_symmetric(k, s);
            rook_symmetric(s, k, flags(occ));
            bishop_symmetric(s, k, flags(occ));
        }
    }
    r
}

/// A piece other than the king attacks the enemy king after the move.
pub open spec fn checked_by_piece(b: Board, p: MoveParts) -> bool {
    let c = after(b, p);
    exists|s: int|
        #[trigger] attacks_from(
            c.squares,
            b.side,
            s,
            king_of(b, b.side.other()),
            occupied(c.squares),
        ) && piece_on(c.squares, s) != PieceType::King
}

/// After a legal move, the mover's king attacks no king, so the other pieces
/// decide whether it is check.
pub proof fn check_after_legal(b: Board, p: MoveParts)
    requires
        playable(b),
        legal_parts(b, p),
    ensures
        checked_by_piece(b, p) <==> in_check(after(b, p), b.side.other()),
{
    legal_keeps_playable(b, p);
    let us = b.side;
    let them = us.other();
    let c = after(b, p);
    let k = king_of(b, them);
    assert(king_of(c, them) == k);
    assert(king_at_home(c, us) && king_at_home(c, them));
    if in_check(c, them) {
        let s = choose|s: int| #[trigger] attacks_from(c.squares, us, s, k, occupied(c.squares));
        if piece_on(c.squares, s) == PieceType::King {
            assert(s == king_of(c, us));
            leaper_symmetric(s, k);
            assert(attacks_from(c.squares, them, k, s, occupied(c.squares)));
            assert(in_check(c, us));
        }
    }
}

/// A move onto a square from which its piece gives check gives check.
proof fn direct_check(b: Board, p: MoveParts)
    requires
        board_wf(b),
        fits(b, p),
        arriving(p) != PieceType::King,
        piece_reaches(
            arriving(p),
            b.side,
            p.to,
            king_of(b, b.side.other()),
            occupied(b.squares),
        ),
    ensures
        checked_by_piece(b, p),
{
    let c = after(b, p);
    let k = king_of(b, b.side.other());
    let pt = arriving(p);
    let occ = occupied(b.squares);
    let occ2 = occupied(c.squares);
    assert(c.squares[p.to] == Some((b.side, pt)));
    attack_forms(pt, b.side, p.to, k, occ);
    attack_forms(pt, b.side, p.to, k, occ2);
    if !leaps(pt, b.side, p.to, k) {
        let d = choose|d: int| #[trigger] aims(pt, d, p.to, k, occ);
        assert forall|u: int| #[trigger] on_ray(d, k, u) && on_ray(d, u, p.to) implies !occ2[u] by {
            ray_valid(d, k, u);
            ray_valid(d, u, p.to);
            assert(!occ[u]);
        }
        assert(aims(pt, d, p.to, k, occ2));
    }
    assert(attacks_from(c.squares, b.side, p.to, k, occ2));
}

/// The masks of the mover's pieces after the move.
spec fn mover_masks(b: Board, p: MoveParts, mover: [u64; 6]) -> bool {
    forall|pt: PieceType, s: int|
        pt != PieceType::NoPiece && valid(s) ==> (#[trigger] on(mover[pt.index()], s)
            <==> after(b, p).squares[s] == Some((b.side, pt)))
}

/// Moves a rook in the masks when castling.
fn castle_masks(from: u8, kingside: bool, occ: u64, rooks: u64) -> (r: (u64, u64))
    requires
        from < 64,
    ensures
        ({
            let a = at(rank(from as int), if kingside {
                7
            } else {
                0
            });
            let z = at(rank(from as int), if kingside {
                5
            } else {
                3
            });
            &&& forall|s: int| #[trigger] on(r.0, s) <==> (on(occ, s) && s != a) || s == z
            &&& forall|s: int| #[trigger] on(r.1, s) <==> (on(rooks, s) && s != a) || s == z
        }),
{
    let home = rank_of(from);
    let (rook_from, rook_to) = if kingside {
        (sq(home, 7), sq(home, 5))
    } else {
        (sq(home, 0), sq(home, 3))
    };
    ((occ & !bit(rook_from)) | bit(rook_to), (rooks & !bit(rook_from)) | bit(rook_to))
}

/// The occupied squares and the mover's masks after the move.
fn masks_after(pos: &Position, m: Move) -> (r: (u64, [u64; 6]))
    requires
        pos.wf(),
        m.wf(),
        fits(pos@, m.parts()),
    ensures
        flags(r.0) == occupied(after(pos@, m.parts()).squares),
        mover_masks(pos@, m.parts(), r.1),
{
    let ghost b = pos@;
    let ghost p = m.parts();
    let us = pos.side_to_move;
    let from = m.from_sq();
    let to = m.to_sq();
    let flag = m.flag();
    let mut occ = (pos.occ_all & !bit(from)) | bit(to);
    let mut mover = pos.pieces[us.idx()];
    let ghost start = mover;
    proof {
        assert forall|pt: PieceType, s: int|
            pt != PieceType::NoPiece && valid(s) implies (#[trigger] on(start[pt.index()], s)
            <==> b.squares[s] == Some((us, pt))) by {
            assert(on(pos.pieces[us.index()][pt.index()], s) <==> pos.mailbox@[s] == Some((us, pt)));
        }
    }
    match flag {
        MoveFlag::EpCapture => {
            occ = occ & !bit(sq(rank_of(from), file_of(to)));
        },
        MoveFlag::KingCastle => {
            let (o, r) = castle_masks(from, true, occ, mover[PieceType::Rook.idx()]);
            occ = o;
            mover[PieceType::Rook.idx()] = r;
        },
        MoveFlag::QueenCastle => {
            let (o, r) = castle_masks(from, false, occ, mover[PieceType::Rook.idx()]);
            occ = o;
            mover[PieceType::Rook.idx()] = r;
        },
        _ => {},
    }
    let piece = m.piece();
    let moved_piece = if flag.is_promotion() {
        flag.promo_piece()
    } else {
        piece
    };
    mover[piece.idx()] = mover[piece.idx()] & !bit(from);
    mover[moved_piece.idx()] = mover[moved_piece.idx()] | bit(to);
    proof {
        let c = after(b, p);
        assert(king_at_home(b, us));
        assert forall|s: int| 0 <= s < 64 implies flags(occ)[s] == occupied(c.squares)[s] by {
            assert(on(pos.occ_all, s) <==> pos.mailbox@[s] is Some);
        }
        assert(flags(occ) =~= occupied(c.squares));
        assert forall|pt: PieceType, s: int|
            pt != PieceType::NoPiece && valid(s) implies (#[trigger] on(mover[pt.index()], s)
            <==> c.squares[s] == Some((us, pt))) by {
            assert(on(start[pt.index()], s) <==> b.squares[s] == Some((us, pt)));
            assert(pt.index() == PieceType::Rook.index() <==> pt == PieceType::Rook);
            assert(pt.index() == piece.index() <==> pt == piece);
            assert(pt.index() == moved_piece.index() <==> pt == moved_piece);
        }
    }
    (occ, mover)
}

/// Whether a move gives check, from the masks as they are after it.
fn gives_check_full(pos: &Position, m: Move) -> (r: bool)
    requires
        pos.wf(),
        m.wf(),
        fits(pos@, m.parts()),
    ensures
        r == checked_by_piece(pos@, m.parts()),
{
    let ghost b = pos@;
    let us = pos.side_to_move;
    let them = us.opponent();
    let king_sq = pos.king_square[them.idx()];
    let ghost k = king_sq as int;
    let ghost c = after(b, m.parts());
    proof {
        assert(king_at_home(b, Color::White) && king_at_home(b, Color::Black));
    }
    let (occ, mover) = masks_after(pos, m);
    let tables = &pos.ctx.attacks;
    let defender_is_white = us == Color::Black;
    let knights = knight_attacks(tables, king_sq) & mover[PieceType::Knight.idx()];
    let pawns = pawn_attacks(tables, defender_is_white, king_sq) & mover[PieceType::Pawn.idx()];
    let rook_like = mover[PieceType::Rook.idx()] | mover[PieceType::Queen.idx()];
    let bishop_like = mover[PieceType::Bishop.idx()] | mover[PieceType::Queen.idx()];
    let straight = rook_attacks(tables, king_sq, occ) & rook_like;
    let diagonal = bishop_attacks(tables, king_sq, occ) & bishop_like;
    proof {
        let occ2 = occupied(c.squares);
        assert forall|s: int|
            (on(knights, s) || on(pawns, s) || on(straight, s) || on(diagonal, s)) <==> (
            #[trigger] attacks_from(c.squares, us, s, k, occ2) && piece_on(c.squares, s)
                != PieceType::King) by {
            leaper_symmetric(s, k);
            leaper_symmetric(k, s);
            rook_symmetric(s, k, occ2);
            bishop_symmetric(s, k, occ2);
            if valid(s) {
                assert(on(mover[PieceType::Knight.index()], s) <==> c.squares[s] == Some(
                    (us, PieceType::Knight),
                ));
                assert(on(mover[PieceType::Pawn.index()], s) <==> c.squares[s] == Some(
                    (us, PieceType::Pawn),
                ));
                assert(on(mover[PieceType::Rook.index()], s) <==> c.squares[s] == Some(
                    (us, PieceType::Rook),
                ));
                assert(on(mover[PieceType::Bishop.index()], s) <==> c.squares[s] == Some(
                    (us, PieceType::Bishop),
                ));
                assert(on(mover[PieceType::Queen.index()], s) <==> c.squares[s] == Some(
                    (us, PieceType::Queen),
                ));
            }
        }
        if checked_by_piece(b, m.parts()) {
            let s = choose|s: int|
                #[trigger] attacks_from(c.squares, us, s, k, occ2) && piece_on(c.squares, s)
                    != PieceType::King;
            assert(on(knights, s) || on(pawns, s) || on(straight, s) || on(diagonal, s));
            assert(!on(0u64, s));
        }
        if knights != 0 {
            lowest(knights);
            let s = vstd::std_specs::bits::u64_trailing_zeros(knights) as int;
            assert(attacks_from(c.squares, us, s, k, occ2));
        }
        if pawns != 0 {
            lowest(pawns);
            let s = vstd::std_specs::bits::u64_trailing_zeros(pawns) as int;
            assert(attacks_from(c.squares, us, s, k, occ2));
        }
        if straight != 0 {
            lowest(straight);
            let s = vstd::std_specs::bits::u64_trailing_zeros(straight) as int;
            assert(attacks_from(c.squares, us, s, k, occ2));
        }
        if diagonal != 0 {
            lowest(diagonal);
            let s = vstd::std_specs::bits::u64_trailing_zeros(diagonal) as int;
            assert(attacks_from(c.squares, us, s, k, occ2));
        }
    }
    knights != 0 || pawns != 0 || straight != 0 || diagonal != 0
}

/// Whether a move gives check.
///
/// The table answers for the moved piece; discovered checks, castling rooks
/// and lines that the move itself opens are left to the full test.
pub fn gives_check(pos: &Position, m: Move, ctx: &CheckingSquares) -> (r: bool)
    requires
        pos.wf(),
        m.wf(),
        fits(pos@, m.parts()),
        ctx.describes(pos@, pos.side_to_move),
    ensures
        r == checked_by_piece(pos@, m.parts()),
        playable(pos@) && legal_parts(pos@, m.parts()) ==> r == in_check(
            after(pos@, m.parts()),
            pos.side_to_move.other(),
        ),
{
    proof {
        if playable(pos@) && legal_parts(pos@, m.parts()) {
            check_after_legal(pos@, m.parts());
        }
    }
    let flag = m.flag();
    let to = m.to_sq();
    let moved_piece_type = if flag.is_promotion() {
        flag.promo_piece()
    } else {
        m.piece()
    };
    let mask = match moved_piece_type {
        PieceType::Pawn => ctx.pawn,
        PieceType::Knight => ctx.knight,
        PieceType::Bishop => ctx.bishop,
        PieceType::Rook => ctx.rook,
        PieceType::Queen => ctx.queen,
        PieceType::King => 0,
        PieceType::NoPiece => 0,
    };
    if mask & bit(to) != 0 {
        proof {
            member_test(mask, to);
            assert(mask == ctx.of(moved_piece_type));
            if moved_piece_type == PieceType::King {
                assert(!on(0u64, to as int));
            }
            direct_check(pos@, m.parts());
        }
        return true;
    }
    gives_check_full(pos, m)
}

} // verus!
