//! What a move changes on the board, and what it leaves alone.
use vstd::prelude::*;
use crate::geometry::{file, rank};
use crate::moves::{MoveFlag, MoveParts};
use crate::pieces::{Color, PieceType};
use crate::rules::{Board, after, fits};

verus! {

/// The clocks: a pawn move or a capture sets the count of half-moves back to
/// nothing, any other move counts one more; the number of the move grows when
/// black has moved; and it is the other side's turn.
pub proof fn clocks_run(b: Board, p: MoveParts)
    requires
        b.halfmove < 65_535,
        b.fullmove < 65_535,
    ensures
        ({
            let c = after(b, p);
            &&& p.piece == PieceType::Pawn || p.flag.captures() ==> c.halfmove == 0
            &&& p.piece != PieceType::Pawn && !p.flag.captures() ==> c.halfmove == b.halfmove + 1
            &&& b.side == Color::White ==> c.fullmove == b.fullmove && c.side == Color::Black
            &&& b.side == Color::Black ==> c.fullmove == b.fullmove + 1 && c.side == Color::White
        }),
{
}

/// A pawn that advances two squares leaves the square between them for capture en
/// passant; every other move takes that chance away.
pub proof fn only_double_steps_can_be_passed(b: Board, p: MoveParts)
    requires
        fits(b, p),
    ensures
        ({
            let c = after(b, p);
            &&& p.flag != MoveFlag::DoublePawnPush ==> c.ep is None
            &&& p.flag == MoveFlag::DoublePawnPush && b.side == Color::White ==> c.ep == Some(
                (p.from + 8) as u8,
            )
            &&& p.flag == MoveFlag::DoublePawnPush && b.side == Color::Black ==> c.ep == Some(
                (p.from - 8) as u8,
            )
        }),
{
    assert(p.from == 8 * rank(p.from) + file(p.from));
}

/// A right to castle stays exactly if it was there, the king of its colour does
/// not move, and nothing leaves or enters the corner of its rook.
pub proof fn rights_go_with_king_and_rook(b: Board, p: MoveParts)
    requires
        b.castling < 16,
    ensures
        ({
            let (r, q) = (b.castling, after(b, p).castling);
            let white_king = p.piece == PieceType::King && b.side == Color::White;
            let black_king = p.piece == PieceType::King && b.side == Color::Black;
            &&& q & 1 != 0 <==> r & 1 != 0 && !white_king && p.from != 7 && p.to != 7
            &&& q & 2 != 0 <==> r & 2 != 0 && !white_king && p.from != 0 && p.to != 0
            &&& q & 4 != 0 <==> r & 4 != 0 && !black_king && p.from != 63 && p.to != 63
            &&& q & 8 != 0 <==> r & 8 != 0 && !black_king && p.from != 56 && p.to != 56
            &&& q < 16
        }),
{
    let r = b.castling;
    assert(forall|x: u8|
        #![auto]
        (x & !3) & 1 == 0 && (x & !3) & 2 == 0 && (x & !3) & 4 == x & 4 && (x & !3) & 8 == x & 8
            && (x & !12) & 4 == 0 && (x & !12) & 8 == 0 && (x & !12) & 1 == x & 1 && (x & !12) & 2
            == x & 2 && (x & !1) & 1 == 0 && (x & !1) & 2 == x & 2 && (x & !1) & 4 == x & 4 && (x
            & !1) & 8 == x & 8 && (x & !2) & 2 == 0 && (x & !2) & 1 == x & 1 && (x & !2) & 4 == x
            & 4 && (x & !2) & 8 == x & 8 && (x & !4) & 4 == 0 && (x & !4) & 1 == x & 1 && (x & !4)
            & 2 == x & 2 && (x & !4) & 8 == x & 8 && (x & !8) & 8 == 0 && (x & !8) & 1 == x & 1
            && (x & !8) & 2 == x & 2 && (x & !8) & 4 == x & 4 && (x & !3) <= x && (x & !12) <= x
            && (x & !1) <= x && (x & !2) <= x && (x & !4) <= x && (x & !8) <= x) by (bit_vector);
}

/// The piece leaves its square and stands on the other, or what it promotes to;
/// a pawn taken en passant is gone from beside it; in castling the rook goes to the
/// other side of the king; and every other square keeps what it held.
pub proof fn only_named_squares_change(b: Board, p: MoveParts, s: int)
    requires
        b.squares.len() == 64,
        fits(b, p),
        0 <= s < 64,
    ensures
        ({
            let c = after(b, p);
            let home = if b.side == Color::White {
                0int
            } else {
                56
            };
            let passed = p.flag == MoveFlag::EpCapture && s == 8 * rank(p.from) + file(p.to);
            let short = p.flag == MoveFlag::KingCastle;
            let long = p.flag == MoveFlag::QueenCastle;
            &&& c.squares.len() == 64
            &&& s == p.from ==> c.squares[s] is None
            &&& s == p.to ==> c.squares[s] == Some(
                (
                    b.side,
                    match p.flag {
                        MoveFlag::PromoQ => PieceType::Queen,
                        MoveFlag::PromoR => PieceType::Rook,
                        MoveFlag::PromoB => PieceType::Bishop,
                        MoveFlag::PromoN => PieceType::Knight,
                        MoveFlag::PromoCaptureQ => PieceType::Queen,
                        MoveFlag::PromoCaptureR => PieceType::Rook,
                        MoveFlag::PromoCaptureB => PieceType::Bishop,
                        MoveFlag::PromoCaptureN => PieceType::Knight,
                        _ => p.piece,
                    },
                ),
            )
            &&& passed ==> c.squares[s] is None
            &&& short ==> c.squares[home + 7] is None && c.squares[home + 5] == Some(
                (b.side, PieceType::Rook),
            )
            &&& long ==> c.squares[home] is None && c.squares[home + 3] == Some(
                (b.side, PieceType::Rook),
            )
            &&& s != p.from && s != p.to && !passed && !(short && (s == home + 7 || s == home + 5))
                && !(long && (s == home || s == home + 3)) ==> c.squares[s] == b.squares[s]
        }),
{
    assert(p.from == 8 * rank(p.from) + file(p.from));
    assert(p.to == 8 * rank(p.to) + file(p.to));
}

} // verus!
