//! The rules of chess, as mathematics: boards, attacks, moves, legality.
//!
//! Nothing here runs. The executable code of the other modules is proved to
//! agree with these definitions.
use vstd::prelude::*;
use crate::geometry::{
    bishop_reaches, file, king_reaches, knight_reaches, pawn_reaches, rank, rook_reaches, valid,
};
use crate::moves::{Move, MoveFlag, MoveParts, packed};
use crate::pieces::{Color, PieceType};

verus! {

/// What stands on each of the 64 squares.
pub type Squares = Seq<Option<(Color, PieceType)>>;

/// A position without its history.
pub struct Board {
    pub squares: Squares,
    pub side: Color,
    pub castling: u8,
    pub ep: Option<u8>,
    pub halfmove: u16,
    pub fullmove: u16,
    pub kings: Seq<u8>,
}

pub open spec fn occupied(squares: Squares) -> Seq<bool> {
    Seq::new(64, |s: int| squares[s] is Some)
}

/// A piece of type `pt` and colour `c` on `s` attacks `t`.
pub open spec fn piece_reaches(pt: PieceType, c: Color, s: int, t: int, occ: Seq<bool>) -> bool {
    match pt {
        PieceType::Pawn => pawn_reaches(c == Color::White, s, t),
        PieceType::Knight => knight_reaches(s, t),
        PieceType::Bishop => bishop_reaches(s, t, occ),
        PieceType::Rook => rook_reaches(s, t, occ),
        PieceType::Queen => rook_reaches(s, t, occ) || bishop_reaches(s, t, occ),
        PieceType::King => king_reaches(s, t),
        PieceType::NoPiece => false,
    }
}

/// The piece on `s` belongs to `by` and attacks `t`.
pub open spec fn attacks_from(
    squares: Squares,
    by: Color,
    s: int,
    t: int,
    occ: Seq<bool>,
) -> bool {
    &&& valid(s)
    &&& squares[s] matches Some((c, pt))
    &&& c == by
    &&& piece_reaches(pt, c, s, t, occ)
}

/// Some piece of colour `by` attacks `t`.
pub open spec fn attacked(squares: Squares, by: Color, t: int, occ: Seq<bool>) -> bool {
    exists|s: int| #[trigger] attacks_from(squares, by, s, t, occ)
}

pub open spec fn king_of(b: Board, c: Color) -> int {
    b.kings[c.index()] as int
}

/// The king of colour `c` is attacked.
pub open spec fn in_check(b: Board, c: Color) -> bool {
    attacked(b.squares, c.other(), king_of(b, c), occupied(b.squares))
}

/// The square is one to capture on en passant: it is empty, and an enemy pawn
/// stands where it can have just advanced to.
pub open spec fn ep_target_ok(b: Board, ep: int) -> bool {
    match b.side {
        Color::White => valid(ep) && rank(ep) == 5 && b.squares[ep] is None && b.squares[ep - 8]
            == Some((Color::Black, PieceType::Pawn)),
        Color::Black => valid(ep) && rank(ep) == 2 && b.squares[ep] is None && b.squares[ep + 8]
            == Some((Color::White, PieceType::Pawn)),
    }
}

/// The king is where the board says it is.
pub open spec fn king_at_home(b: Board, c: Color) -> bool {
    valid(king_of(b, c)) && b.squares[king_of(b, c)] == Some((c, PieceType::King))
}

/// A board that makes sense: real pieces, and one king a side.
pub open spec fn board_wf(b: Board) -> bool {
    &&& b.squares.len() == 64
    &&& b.kings.len() == 2
    &&& b.castling < 16
    &&& forall|s: int|
        valid(s) ==> (#[trigger] b.squares[s] matches Some((c, pt)) ==> pt != PieceType::NoPiece
            && (pt == PieceType::King ==> s == king_of(b, c)))
    &&& king_at_home(b, Color::White)
    &&& king_at_home(b, Color::Black)
}

/// A board on which play can go on: the side that just moved is not in check.
pub open spec fn playable(b: Board) -> bool {
    board_wf(b) && !in_check(b, b.side.other())
}

pub open spec fn home_rank(c: Color) -> int {
    match c {
        Color::White => 0,
        Color::Black => 7,
    }
}

pub open spec fn at(r: int, f: int) -> int {
    8 * r + f
}

/// Castling-right bits.
pub open spec fn right_bit(c: Color, kingside: bool) -> u8 {
    match c {
        Color::White => if kingside {
            1u8
        } else {
            2u8
        },
        Color::Black => if kingside {
            4u8
        } else {
            8u8
        },
    }
}

pub open spec fn has_right(b: Board, kingside: bool) -> bool {
    b.castling & right_bit(b.side, kingside) != 0
}

/// Where the rook stands before castling.
pub open spec fn rook_home(c: Color, kingside: bool) -> int {
    at(home_rank(c), if kingside {
        7
    } else {
        0
    })
}

/// Where castling puts the rook.
pub open spec fn rook_castled(c: Color, kingside: bool) -> int {
    at(home_rank(c), if kingside {
        5
    } else {
        3
    })
}

/// The square of the pawn that an en-passant capture removes.
pub open spec fn ep_victim(p: MoveParts) -> int {
    at(rank(p.from), file(p.to))
}

/// The piece that stands on the destination after the move.
pub open spec fn arriving(p: MoveParts) -> PieceType {
    if p.flag.promotes() {
        p.flag.promotes_to()
    } else {
        p.piece
    }
}

pub open spec fn is_castle(p: MoveParts) -> bool {
    p.flag == MoveFlag::KingCastle || p.flag == MoveFlag::QueenCastle
}

/// The squares after the move: the captured piece is gone, the piece stands on
/// its destination, and castling has moved the rook.
pub open spec fn squares_after(b: Board, p: MoveParts) -> Squares {
    let us = b.side;
    let cleared = if p.flag == MoveFlag::EpCapture {
        b.squares.update(ep_victim(p), None)
    } else {
        b.squares
    };
    let moved = cleared.update(p.from, None).update(p.to, Some((us, arriving(p))));
    if is_castle(p) {
        let k = p.flag == MoveFlag::KingCastle;
        moved.update(rook_home(us, k), None).update(
            rook_castled(us, k),
            Some((us, PieceType::Rook)),
        )
    } else {
        moved
    }
}

/// The castling rights that a move from or to the given squares leaves.
pub open spec fn rights_after(rights: u8, from: int, to: int, piece: PieceType, us: Color) -> u8 {
    let r0 = if piece == PieceType::King {
        match us {
            Color::White => rights & !3u8,
            Color::Black => rights & !12u8,
        }
    } else {
        rights
    };
    let r1 = if from == 0 || to == 0 {
        r0 & !2u8
    } else {
        r0
    };
    let r2 = if from == 7 || to == 7 {
        r1 & !1u8
    } else {
        r1
    };
    let r3 = if from == 56 || to == 56 {
        r2 & !8u8
    } else {
        r2
    };
    if from == 63 || to == 63 {
        r3 & !4u8
    } else {
        r3
    }
}

/// A counter that starts again at zero after its largest value.
pub open spec fn bump(n: u16) -> u16 {
    if n == 65535 {
        0
    } else {
        (n + 1) as u16
    }
}

/// The board after the move.
pub open spec fn after(b: Board, p: MoveParts) -> Board {
    Board {
        squares: squares_after(b, p),
        side: b.side.other(),
        castling: rights_after(b.castling, p.from, p.to, p.piece, b.side),
        ep: if p.flag == MoveFlag::DoublePawnPush {
            Some(at((rank(p.from) + rank(p.to)) / 2, file(p.from)) as u8)
        } else {
            None
        },
        halfmove: if p.piece == PieceType::Pawn || p.flag.captures() {
            0
        } else {
            bump(b.halfmove)
        },
        fullmove: if b.side == Color::Black {
            bump(b.fullmove)
        } else {
            b.fullmove
        },
        kings: if p.piece == PieceType::King {
            b.kings.update(b.side.index(), p.to as u8)
        } else {
            b.kings
        },
    }
}

/// The counter before a step.
pub open spec fn unbump(n: u16) -> u16 {
    if n == 0 {
        65535
    } else {
        (n - 1) as u16
    }
}

/// The squares before the move: what `squares_after` has changed, put back.
pub open spec fn squares_before(squares: Squares, us: Color, p: MoveParts) -> Squares {
    let k = p.flag == MoveFlag::KingCastle;
    let rook_back = if is_castle(p) {
        squares.update(rook_castled(us, k), None).update(
            rook_home(us, k),
            Some((us, PieceType::Rook)),
        )
    } else {
        squares
    };
    let restored = rook_back.update(
        p.to,
        if p.flag.captures() && p.flag != MoveFlag::EpCapture {
            Some((us.other(), p.captured))
        } else {
            None
        },
    ).update(p.from, Some((us, p.piece)));
    if p.flag == MoveFlag::EpCapture {
        restored.update(ep_victim(p), Some((us.other(), PieceType::Pawn)))
    } else {
        restored
    }
}

/// The board before the move, with the castling rights, en-passant square and
/// halfmove clock it had.
pub open spec fn before(
    b: Board,
    p: MoveParts,
    castling: u8,
    ep: Option<u8>,
    halfmove: u16,
) -> Board {
    let us = b.side.other();
    Board {
        squares: squares_before(b.squares, us, p),
        side: us,
        castling,
        ep,
        halfmove,
        fullmove: if us == Color::Black {
            unbump(b.fullmove)
        } else {
            b.fullmove
        },
        kings: if p.piece == PieceType::King {
            b.kings.update(us.index(), p.from as u8)
        } else {
            b.kings
        },
    }
}

/// The board after passing.
pub open spec fn after_null(b: Board) -> Board {
    Board { side: b.side.other(), ep: None, ..b }
}

/// The move says the truth about the board: the piece is there, what it
/// captures is there and is no king, and the squares it needs are free.
pub open spec fn fits(b: Board, p: MoveParts) -> bool {
    agrees(b, p) && p.captured != PieceType::King
}

/// The move says the truth about the board, but may capture a king.
pub open spec fn agrees(b: Board, p: MoveParts) -> bool {
    let us = b.side;
    let them = us.other();
    &&& valid(p.from)
    &&& valid(p.to)
    &&& p.from != p.to
    &&& p.piece != PieceType::NoPiece
    &&& b.squares[p.from] == Some((us, p.piece))
    &&& p.flag.promotes() ==> p.piece == PieceType::Pawn
    &&& if p.flag == MoveFlag::EpCapture {
        &&& p.piece == PieceType::Pawn
        &&& p.captured == PieceType::Pawn
        &&& b.squares[p.to] is None
        &&& ep_victim(p) != p.from
        &&& b.squares[ep_victim(p)] == Some((them, PieceType::Pawn))
    } else if p.flag.captures() {
        &&& p.captured != PieceType::NoPiece
        &&& b.squares[p.to] == Some((them, p.captured))
    } else {
        &&& p.captured == PieceType::NoPiece
        &&& b.squares[p.to] is None
    }
    &&& is_castle(p) ==> {
        let k = p.flag == MoveFlag::KingCastle;
        &&& p.piece == PieceType::King
        &&& p.from == at(home_rank(us), 4)
        &&& p.to == at(home_rank(us), if k {
            6
        } else {
            2
        })
        &&& b.squares[rook_home(us, k)] == Some((us, PieceType::Rook))
        &&& b.squares[rook_castled(us, k)] is None
    }
    &&& p.flag == MoveFlag::DoublePawnPush ==> {
        &&& p.piece == PieceType::Pawn
        &&& rank(p.from) == if us == Color::White {
            1int
        } else {
            6int
        }
        &&& p.to == p.from + if us == Color::White {
            16int
        } else {
            -16int
        }
        &&& b.squares[p.from + if us == Color::White {
            8int
        } else {
            -8int
        }] is None
    }
}

/// Flag and captured piece of a move that captures whatever is on its
/// destination, which must not be an own piece.
pub open spec fn plain_flags(b: Board, p: MoveParts) -> bool {
    match b.squares[p.to] {
        None => p.flag == MoveFlag::Quiet && p.captured == PieceType::NoPiece,
        Some((c, pt)) => c == b.side.other() && p.flag == MoveFlag::Capture && p.captured == pt,
    }
}

pub open spec fn safe_square(b: Board, s: int) -> bool {
    !attacked(b.squares, b.side.other(), s, occupied(b.squares))
}

/// Castling: king and rook at home with the right to castle, the squares
/// between them free, and the king neither in check nor crossing or reaching
/// an attacked square.
pub open spec fn castles(b: Board, p: MoveParts) -> bool {
    let us = b.side;
    let r = home_rank(us);
    &&& p.piece == PieceType::King
    &&& p.captured == PieceType::NoPiece
    &&& p.from == king_of(b, us)
    &&& p.from == at(r, 4)
    &&& {
        ||| {
            &&& p.flag == MoveFlag::KingCastle
            &&& has_right(b, true)
            &&& p.to == at(r, 6)
            &&& b.squares[at(r, 7)] == Some((us, PieceType::Rook))
            &&& b.squares[at(r, 5)] is None
            &&& b.squares[at(r, 6)] is None
            &&& safe_square(b, at(r, 4))
            &&& safe_square(b, at(r, 5))
            &&& safe_square(b, at(r, 6))
        }
        ||| {
            &&& p.flag == MoveFlag::QueenCastle
            &&& has_right(b, false)
            &&& p.to == at(r, 2)
            &&& b.squares[at(r, 0)] == Some((us, PieceType::Rook))
            &&& b.squares[at(r, 1)] is None
            &&& b.squares[at(r, 2)] is None
            &&& b.squares[at(r, 3)] is None
            &&& safe_square(b, at(r, 4))
            &&& safe_square(b, at(r, 3))
            &&& safe_square(b, at(r, 2))
        }
    }
}

pub open spec fn pawn_up(c: Color) -> int {
    match c {
        Color::White => 8,
        Color::Black => -8,
    }
}

pub open spec fn pawn_start(c: Color) -> int {
    match c {
        Color::White => 1,
        Color::Black => 6,
    }
}

pub open spec fn promo_rank(c: Color) -> int {
    match c {
        Color::White => 7,
        Color::Black => 0,
    }
}

/// A pawn that arrives on the last rank promotes; elsewhere it does not.
pub open spec fn pawn_flag(c: Color, p: MoveParts, capture: bool) -> bool {
    if rank(p.to) == promo_rank(c) {
        p.flag.promotes() && p.flag.captures() == capture
    } else if capture {
        p.flag == MoveFlag::Capture
    } else {
        p.flag == MoveFlag::Quiet
    }
}

pub open spec fn pawn_pushes(b: Board, p: MoveParts) -> bool {
    &&& p.to == p.from + pawn_up(b.side)
    &&& valid(p.to)
    &&& b.squares[p.to] is None
    &&& p.captured == PieceType::NoPiece
    &&& pawn_flag(b.side, p, false)
}

pub open spec fn pawn_double_pushes(b: Board, p: MoveParts) -> bool {
    &&& rank(p.from) == pawn_start(b.side)
    &&& p.to == p.from + 2 * pawn_up(b.side)
    &&& valid(p.to)
    &&& b.squares[p.from + pawn_up(b.side)] is None
    &&& b.squares[p.to] is None
    &&& p.captured == PieceType::NoPiece
    &&& p.flag == MoveFlag::DoublePawnPush
}

pub open spec fn pawn_captures(b: Board, p: MoveParts) -> bool {
    &&& pawn_reaches(b.side == Color::White, p.from, p.to)
    &&& b.squares[p.to] == Some((b.side.other(), p.captured))
    &&& pawn_flag(b.side, p, true)
}

pub open spec fn pawn_takes_ep(b: Board, p: MoveParts) -> bool {
    &&& pawn_reaches(b.side == Color::White, p.from, p.to)
    &&& b.ep == Some(p.to as u8)
    &&& ep_target_ok(b, p.to)
    &&& p.captured == PieceType::Pawn
    &&& p.flag == MoveFlag::EpCapture
}

/// The way the pieces move, king safety left aside.
pub open spec fn pseudo_legal(b: Board, p: MoveParts) -> bool {
    &&& valid(p.from)
    &&& valid(p.to)
    &&& p.piece != PieceType::NoPiece
    &&& b.squares[p.from] == Some((b.side, p.piece))
    &&& match p.piece {
        PieceType::Pawn => pawn_pushes(b, p) || pawn_double_pushes(b, p) || pawn_captures(b, p)
            || pawn_takes_ep(b, p),
        PieceType::King => (king_reaches(p.from, p.to) && plain_flags(b, p)) || castles(b, p),
        _ => piece_reaches(p.piece, b.side, p.from, p.to, occupied(b.squares)) && plain_flags(b, p),
    }
}

/// The move leaves the mover's king out of check.
pub open spec fn king_safe(b: Board, p: MoveParts) -> bool {
    !in_check(after(b, p), b.side)
}

pub open spec fn legal_parts(b: Board, p: MoveParts) -> bool {
    pseudo_legal(b, p) && king_safe(b, p)
}

/// `m` is the packed form of a legal move.
pub open spec fn legal(b: Board, m: Move) -> bool {
    m == packed(m.parts()) && m.wf() && legal_parts(b, m.parts())
}

} // verus!
