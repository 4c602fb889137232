//! Evaluation of positions: by the network where one is loaded, else by
//! material and piece-square tables.
use vstd::prelude::*;
use crate::arith::{div_toward_zero, low_i32, quotient, wrap32};
use crate::bitboard::{file_of, popcount, rank_of};
use crate::bits::{count_below, on};
use crate::context::Context;
use crate::geometry::{file, rank, valid};
use crate::moves::{MoveFlag, MoveList, MoveParts};
use crate::nnue::accum::{accumulated_sums, sums_of};
use crate::nnue::inference::NnueEvaluator;
use crate::nnue::position::Position as NnuePosition;
use crate::nnue::position::{
    B_BISHOP, B_KING, B_KNIGHT, B_PAWN, B_QUEEN, B_ROOK, NO_PIECE, W_BISHOP, W_KING, W_KNIGHT,
    W_PAWN, W_QUEEN, W_ROOK, last_square,
};
use crate::pieces::{Color, PieceType};
use crate::position::{Position, board_features, codes, seen_king};
use crate::rules::{
    Board, Squares, after, arriving, board_wf, ep_victim, fits, is_castle, rook_castled,
    rook_home,
};

verus! {

/// The score of delivering mate at once.
pub const MATE_SCORE: i32 = 100_000;

// Piece-square tables for the middlegame and the endgame. The first row is the
// eighth rank for white and the first rank for black.

pub const PAWN_MG: [[i32; 8]; 8] = [
    [0, 0, 0, 0, 0, 0, 0, 0],
    [5, 10, 10, -20, -20, 10, 10, 5],
    [5, -5, -10, 0, 0, -10, -5, 5],
    [0, 0, 0, 20, 20, 0, 0, 0],
    [5, 5, 10, 25, 25, 10, 5, 5],
    [10, 10, 20, 30, 30, 20, 10, 10],
    [50, 50, 50, 50, 50, 50, 50, 50],
    [0, 0, 0, 0, 0, 0, 0, 0],
];

pub const PAWN_EG: [[i32; 8]; 8] = [
    [0, 0, 0, 0, 0, 0, 0, 0],
    [10, 10, 10, 10, 10, 10, 10, 10],
    [15, 15, 20, 20, 20, 20, 15, 15],
    [25, 25, 30, 30, 30, 30, 25, 25],
    [40, 40, 45, 45, 45, 45, 40, 40],
    [60, 60, 65, 65, 65, 65, 60, 60],
    [80, 80, 85, 85, 85, 85, 80, 80],
    [0, 0, 0, 0, 0, 0, 0, 0],
];

pub const KNIGHT_MG: [[i32; 8]; 8] = [
    [-50, -40, -30, -30, -30, -30, -40, -50],
    [-40, -20, 0, 0, 0, 0, -20, -40],
    [-30, 0, 10, 15, 15, 10, 0, -30],
    [-30, 5, 15, 20, 20, 15, 5, -30],
    [-30, 0, 15, 20, 20, 15, 0, -30],
    [-30, 5, 10, 15, 15, 10, 5, -30],
    [-40, -20, 0, 5, 5, 0, -20, -40],
    [-50, -35, -30, -30, -30, -30, -35, -50],
];

pub const KNIGHT_EG: [[i32; 8]; 8] = [
    [-50, -40, -30, -30, -30, -30, -40, -50],
    [-40, -20, 0, 5, 5, 0, -20, -40],
    [-30, 0, 15, 20, 20, 15, 0, -30],
    [-30, 5, 20, 25, 25, 20, 5, -30],
    [-30, 0, 20, 25, 25, 20, 0, -30],
    [-30, 5, 15, 20, 20, 15, 5, -30],
    [-40, -20, 0, 5, 5, 0, -20, -40],
    [-50, -40, -30, -30, -30, -30, -40, -50],
];

pub const BISHOP_MG: [[i32; 8]; 8] = [
    [-20, -10, -10, -10, -10, -10, -10, -20],
    [-10, 5, 0, 0, 0, 0, 5, -10],
    [-10, 10, 10, 10, 10, 10, 10, -10],
    [-10, 0, 10, 10, 10, 10, 0, -10],
    [-10, 5, 5, 10, 10, 5, 5, -10],
    [-10, 0, 5, 10, 10, 5, 0, -10],
    [-10, 0, 0, 0, 0, 0, 0, -10],
    [-20, -10, -15, -10, -10, -15, -10, -20],
];

pub const BISHOP_EG: [[i32; 8]; 8] = [
    [-20, -10, -10, -10, -10, -10, -10, -20],
    [-10, 0, 0, 0, 0, 0, 0, -10],
    [-10, 0, 10, 10, 10, 10, 0, -10],
    [-10, 5, 10, 10, 10, 10, 5, -10],
    [-10, 0, 10, 10, 10, 10, 0, -10],
    [-10, 0, 10, 10, 10, 10, 0, -10],
    [-10, 0, 0, 0, 0, 0, 0, -10],
    [-20, -10, -10, -10, -10, -10, -10, -20],
];

pub const ROOK_MG: [[i32; 8]; 8] = [
    [0, 0, 0, 5, 5, 0, 0, 0],
    [-5, 0, 0, 0, 0, 0, 0, -5],
    [-5, 0, 0, 0, 0, 0, 0, -5],
    [-5, 0, 0, 0, 0, 0, 0, -5],
    [-5, 0, 0, 0, 0, 0, 0, -5],
    [-5, 0, 0, 0, 0, 0, 0, -5],
    [5, 10, 10, 10, 10, 10, 10, 5],
    [0, 0, 0, 5, 5, 0, 0, 0],
];

pub const ROOK_EG: [[i32; 8]; 8] = [
    [0, 0, 0, 0, 0, 0, 0, 0],
    [0, 0, 0, 0, 0, 0, 0, 0],
    [0, 0, 0, 0, 0, 0, 0, 0],
    [0, 0, 0, 0, 0, 0, 0, 0],
    [0, 0, 0, 0, 0, 0, 0, 0],
    [0, 0, 0, 0, 0, 0, 0, 0],
    [5, 5, 5, 5, 5, 5, 5, 5],
    [0, 0, 0, 0, 0, 0, 0, 0],
];

pub const QUEEN_MG: [[i32; 8]; 8] = [
    [-20, -10, -10, -5, -5, -10, -10, -20],
    [-10, 0, 5, 0, 0, 0, 0, -10],
    [-10, 5, 5, 5, 5, 5, 0, -10],
    [0, 0, 5, 5, 5, 5, 0, -5],
    [-5, 0, 5, 5, 5, 5, 0, -5],
    [-10, 0, 5, 5, 5, 5, 0, -10],
    [-10, 0, 0, 0, 0, 0, 0, -10],
    [-20, -10, -10, -5, -5, -10, -10, -20],
];

pub const QUEEN_EG: [[i32; 8]; 8] = [
    [-20, -10, -10, -5, -5, -10, -10, -20],
    [-10, 0, 0, 0, 0, 0, 0, -10],
    [-10, 0, 5, 5, 5, 5, 0, -10],
    [-5, 0, 5, 5, 5, 5, 0, -5],
    [-5, 0, 5, 5, 5, 5, 0, -5],
    [-10, 0, 5, 5, 5, 5, 0, -10],
    [-10, 0, 0, 0, 0, 0, 0, -10],
    [-20, -10, -10, -5, -5, -10, -10, -20],
];

pub const KING_MG: [[i32; 8]; 8] = [
    [-30, -40, -40, -50, -50, -40, -40, -30],
    [-30, -40, -40, -50, -50, -40, -40, -30],
    [-30, -40, -40, -50, -50, -40, -40, -30],
    [-30, -40, -40, -50, -50, -40, -40, -30],
    [-20, -30, -30, -40, -40, -30, -30, -20],
    [-10, -20, -20, -20, -20, -20, -20, -10],
    [20, 20, 0, 0, 0, 0, 20, 20],
    [20, 30, 10, 0, 0, 10, 30, 20],
];

pub const KING_EG: [[i32; 8]; 8] = [
    [-50, -40, -30, -20, -20, -30, -40, -50],
    [-30, -20, -10, 0, 0, -10, -20, -30],
    [-30, -10, 20, 30, 30, 20, -10, -30],
    [-30, -10, 30, 40, 40, 30, -10, -30],
    [-30, -10, 30, 40, 40, 30, -10, -30],
    [-30, -10, 20, 30, 30, 20, -10, -30],
    [-30, -30, 0, 0, 0, 0, -30, -30],
    [-50, -30, -30, -30, -30, -30, -30, -50],
];

/// How much each piece counts towards the middlegame.
pub const PHASE_WEIGHT: [i32; 6] = [0, 1, 1, 2, 4, 0];

pub const MAX_PHASE: i32 = 24;

pub const PIECE_VALUE_MG: [i32; 6] = [82, 337, 365, 477, 1025, 0];

pub const PIECE_VALUE_EG: [i32; 6] = [94, 281, 297, 512, 936, 0];

/// The middlegame table of a piece.
pub open spec fn mg_table(pt: PieceType) -> [[i32; 8]; 8] {
    match pt {
        PieceType::Pawn => PAWN_MG,
        PieceType::Knight => KNIGHT_MG,
        PieceType::Bishop => BISHOP_MG,
        PieceType::Rook => ROOK_MG,
        PieceType::Queen => QUEEN_MG,
        _ => KING_MG,
    }
}

/// The endgame table of a piece.
pub open spec fn eg_table(pt: PieceType) -> [[i32; 8]; 8] {
    match pt {
        PieceType::Pawn => PAWN_EG,
        PieceType::Knight => KNIGHT_EG,
        PieceType::Bishop => BISHOP_EG,
        PieceType::Rook => ROOK_EG,
        PieceType::Queen => QUEEN_EG,
        _ => KING_EG,
    }
}

/// The entry of a table for a square, seen from a colour.
pub open spec fn table_entry(table: [[i32; 8]; 8], c: Color, s: int) -> int {
    let row = if c == Color::White {
        7 - rank(s)
    } else {
        rank(s)
    };
    table[row][file(s)] as int
}

/// What a piece on a square is worth.
pub open spec fn worth(c: Color, pt: PieceType, s: int, endgame: bool) -> int {
    if endgame {
        PIECE_VALUE_EG[pt.index()] + table_entry(eg_table(pt), c, s)
    } else {
        PIECE_VALUE_MG[pt.index()] + table_entry(mg_table(pt), c, s)
    }
}

/// What the pieces of a colour on the squares below `n` are worth.
pub open spec fn total_worth(squares: Squares, c: Color, endgame: bool, n: int) -> int
    decreases n,
{
    if n <= 0 {
        0
    } else {
        total_worth(squares, c, endgame, n - 1) + match squares[n - 1] {
            Some((d, pt)) => if d == c && pt != PieceType::NoPiece {
                worth(c, pt, n - 1, endgame)
            } else {
                0
            },
            None => 0,
        }
    }
}

/// The phase weights of the pieces on the squares below `n`.
pub open spec fn total_phase(squares: Squares, n: int) -> int
    decreases n,
{
    if n <= 0 {
        0
    } else {
        total_phase(squares, n - 1) + match squares[n - 1] {
            Some((_, pt)) => if pt != PieceType::NoPiece {
                PHASE_WEIGHT[pt.index()] as int
            } else {
                0
            },
            None => 0,
        }
    }
}

/// Material and piece-square tables for the side to move, blended between
/// middlegame and endgame.
pub open spec fn classical_score(b: Board) -> int {
    let us = b.side;
    let them = us.other();
    let mg = total_worth(b.squares, us, false, 64) - total_worth(b.squares, them, false, 64);
    let eg = total_worth(b.squares, us, true, 64) - total_worth(b.squares, them, true, 64);
    let phase = if total_phase(b.squares, 64) < 24 {
        total_phase(b.squares, 64)
    } else {
        24
    };
    quotient(mg * phase + eg * (24 - phase), 24)
}

/// What is good for one side is as bad for the other: with the other side to
/// move the score changes its sign.
pub proof fn turn_negates(b: Board)
    ensures
        classical_score(Board { side: b.side.other(), ..b }) == -classical_score(b),
{
    let us = b.side;
    let them = us.other();
    let mg = total_worth(b.squares, us, false, 64) - total_worth(b.squares, them, false, 64);
    let eg = total_worth(b.squares, us, true, 64) - total_worth(b.squares, them, true, 64);
    let phase = if total_phase(b.squares, 64) < 24 {
        total_phase(b.squares, 64)
    } else {
        24
    };
    assert((-mg) * phase + (-eg) * (24 - phase) == -(mg * phase + eg * (24 - phase)))
        by (nonlinear_arith);
}

pub proof fn eight(i: int)
    requires
        0 <= i < 8,
    ensures
        i == 0 || i == 1 || i == 2 || i == 3 || i == 4 || i == 5 || i == 6 || i == 7,
{
}

/// The entries of all tables are small.
proof fn tables_small()
    ensures
        forall|r: int, f: int| 0 <= r < 8 && 0 <= f < 8 ==> -100 <= #[trigger] PAWN_MG[r][f] <= 100,
        forall|r: int, f: int| 0 <= r < 8 && 0 <= f < 8 ==> -100 <= #[trigger] PAWN_EG[r][f] <= 100,
        forall|r: int, f: int| 0 <= r < 8 && 0 <= f < 8 ==> -100 <= #[trigger] KNIGHT_MG[r][f] <= 100,
        forall|r: int, f: int| 0 <= r < 8 && 0 <= f < 8 ==> -100 <= #[trigger] KNIGHT_EG[r][f] <= 100,
        forall|r: int, f: int| 0 <= r < 8 && 0 <= f < 8 ==> -100 <= #[trigger] BISHOP_MG[r][f] <= 100,
        forall|r: int, f: int| 0 <= r < 8 && 0 <= f < 8 ==> -100 <= #[trigger] BISHOP_EG[r][f] <= 100,
        forall|r: int, f: int| 0 <= r < 8 && 0 <= f < 8 ==> -100 <= #[trigger] ROOK_MG[r][f] <= 100,
        forall|r: int, f: int| 0 <= r < 8 && 0 <= f < 8 ==> -100 <= #[trigger] ROOK_EG[r][f] <= 100,
        forall|r: int, f: int| 0 <= r < 8 && 0 <= f < 8 ==> -100 <= #[trigger] QUEEN_MG[r][f] <= 100,
        forall|r: int, f: int| 0 <= r < 8 && 0 <= f < 8 ==> -100 <= #[trigger] QUEEN_EG[r][f] <= 100,
        forall|r: int, f: int| 0 <= r < 8 && 0 <= f < 8 ==> -100 <= #[trigger] KING_MG[r][f] <= 100,
        forall|r: int, f: int| 0 <= r < 8 && 0 <= f < 8 ==> -100 <= #[trigger] KING_EG[r][f] <= 100,
{
    assert forall|r: int, f: int| 0 <= r < 8 && 0 <= f < 8 implies -100 <= #[trigger] PAWN_MG[r][f] <= 100 by {
        eight(r);
        eight(f);
    }
    assert forall|r: int, f: int| 0 <= r < 8 && 0 <= f < 8 implies -100 <= #[trigger] PAWN_EG[r][f] <= 100 by {
        eight(r);
        eight(f);
    }
    assert forall|r: int, f: int| 0 <= r < 8 && 0 <= f < 8 implies -100 <= #[trigger] KNIGHT_MG[r][f] <= 100 by {
        eight(r);
        eight(f);
    }
    assert forall|r: int, f: int| 0 <= r < 8 && 0 <= f < 8 implies -100 <= #[trigger] KNIGHT_EG[r][f] <= 100 by {
        eight(r);
        eight(f);
    }
    assert forall|r: int, f: int| 0 <= r < 8 && 0 <= f < 8 implies -100 <= #[trigger] BISHOP_MG[r][f] <= 100 by {
        eight(r);
        eight(f);
    }
    assert forall|r: int, f: int| 0 <= r < 8 && 0 <= f < 8 implies -100 <= #[trigger] BISHOP_EG[r][f] <= 100 by {
        eight(r);
        eight(f);
    }
    assert forall|r: int, f: int| 0 <= r < 8 && 0 <= f < 8 implies -100 <= #[trigger] ROOK_MG[r][f] <= 100 by {
        eight(r);
        eight(f);
    }
    assert forall|r: int, f: int| 0 <= r < 8 && 0 <= f < 8 implies -100 <= #[trigger] ROOK_EG[r][f] <= 100 by {
        eight(r);
        eight(f);
    }
    assert forall|r: int, f: int| 0 <= r < 8 && 0 <= f < 8 implies -100 <= #[trigger] QUEEN_MG[r][f] <= 100 by {
        eight(r);
        eight(f);
    }
    assert forall|r: int, f: int| 0 <= r < 8 && 0 <= f < 8 implies -100 <= #[trigger] QUEEN_EG[r][f] <= 100 by {
        eight(r);
        eight(f);
    }
    assert forall|r: int, f: int| 0 <= r < 8 && 0 <= f < 8 implies -100 <= #[trigger] KING_MG[r][f] <= 100 by {
        eight(r);
        eight(f);
    }
    assert forall|r: int, f: int| 0 <= r < 8 && 0 <= f < 8 implies -100 <= #[trigger] KING_EG[r][f] <= 100 by {
        eight(r);
        eight(f);
    }
}

proof fn worth_small(c: Color, pt: PieceType, s: int, endgame: bool)
    requires
        0 <= s < 64,
        pt != PieceType::NoPiece,
    ensures
        -1200 <= worth(c, pt, s, endgame) <= 1200,
        0 <= PHASE_WEIGHT[pt.index()] <= 4,
{
    tables_small();
}

#[inline]
fn pst_lookup(table: &[[i32; 8]; 8], color: Color, rank: u8, file: u8) -> (r: i32)
    requires
        rank < 8,
        file < 8,
    ensures
        r == table_entry(*table, color, 8 * rank + file),
{
    let idx = if color == Color::White {
        7 - rank
    } else {
        rank
    };
    table[idx as usize][file as usize]
}

/// Material and piece-square tables, for when no network is loaded.
pub fn classical_evaluate(pos: &Position) -> (r: i32)
    ensures
        r == classical_score(pos@),
        -200_000 <= r <= 200_000,
{
    let ghost squares = pos.mailbox@;
    let mut mg: [i32; 2] = [0i32; 2];
    let mut eg: [i32; 2] = [0i32; 2];
    let mut phase: i32 = 0;
    let mut s: u8 = 0;
    while s < 64
        invariant
            s <= 64,
            squares == pos.mailbox@,
            mg[0] == total_worth(squares, Color::White, false, s as int),
            mg[1] == total_worth(squares, Color::Black, false, s as int),
            eg[0] == total_worth(squares, Color::White, true, s as int),
            eg[1] == total_worth(squares, Color::Black, true, s as int),
            phase == total_phase(squares, s as int),
            -1200 * s <= mg[0] <= 1200 * s,
            -1200 * s <= mg[1] <= 1200 * s,
            -1200 * s <= eg[0] <= 1200 * s,
            -1200 * s <= eg[1] <= 1200 * s,
            0 <= phase <= 4 * s,
        decreases 64 - s,
    {
        if let Some((color, pt)) = pos.piece_at(s) {
            if pt != PieceType::NoPiece {
                let idx = pt.idx();
                let r = rank_of(s);
                let f = file_of(s);
                let (pst_mg, pst_eg) = match pt {
                    PieceType::Pawn => (PAWN_MG, PAWN_EG),
                    PieceType::Knight => (KNIGHT_MG, KNIGHT_EG),
                    PieceType::Bishop => (BISHOP_MG, BISHOP_EG),
                    PieceType::Rook => (ROOK_MG, ROOK_EG),
                    PieceType::Queen => (QUEEN_MG, QUEEN_EG),
                    _ => (KING_MG, KING_EG),
                };
                proof {
                    worth_small(color, pt, s as int, false);
                    worth_small(color, pt, s as int, true);
                    tables_small();
                }
                let c = color.idx();
                mg[c] = mg[c] + (PIECE_VALUE_MG[idx] + pst_lookup(&pst_mg, color, r, f));
                eg[c] = eg[c] + (PIECE_VALUE_EG[idx] + pst_lookup(&pst_eg, color, r, f));
                phase = phase + PHASE_WEIGHT[idx];
            }
        }
        s += 1;
    }
    let blend = if phase < MAX_PHASE {
        phase
    } else {
        MAX_PHASE
    };
    let stm = pos.side_to_move.idx();
    let opp = 1 - stm;
    let mg_score: i32 = mg[stm] - mg[opp];
    let eg_score: i32 = eg[stm] - eg[opp];
    proof {
        assert(-153600 * 24 <= mg_score * blend <= 153600 * 24) by (nonlinear_arith)
            requires
                -153600 <= mg_score <= 153600,
                0 <= blend <= 24,
        ;
        assert(-153600 * 24 <= eg_score * (24 - blend) <= 153600 * 24) by (nonlinear_arith)
            requires
                -153600 <= eg_score <= 153600,
                0 <= blend <= 24,
        ;
        assert(-153600 * 24 <= mg_score * blend + eg_score * (24 - blend) <= 153600 * 24)
            by (nonlinear_arith)
            requires
                -153600 <= mg_score <= 153600,
                -153600 <= eg_score <= 153600,
                0 <= blend <= 24,
        ;
    }
    let total: i32 = mg_score * blend + eg_score * (MAX_PHASE - blend);
    div_toward_zero(total as i64, MAX_PHASE as i64) as i32
}

/// The number of pieces on the squares below `n`.
pub open spec fn piece_total(squares: Squares, n: int) -> int
    decreases n,
{
    if n <= 0 {
        0
    } else {
        piece_total(squares, n - 1) + if squares[n - 1] is Some {
            1int
        } else {
            0int
        }
    }
}

/// The network's score for the side to move, in centipawns.
pub open spec fn network_score(ev: NnueEvaluator, b: Board) -> int {
    let white = sums_of(ev.feature_transformer, board_features(b.squares, 0, b.kings[0] as int));
    let black = sums_of(ev.feature_transformer, board_features(b.squares, 1, b.kings[1] as int));
    let n = piece_total(b.squares, 64);
    let raw = if b.side == Color::White {
        ev.score(white, black, n)
    } else {
        ev.score(black, white, n)
    };
    quotient(wrap32(raw * 100), 328)
}

/// The static score of a board for the side to move.
pub open spec fn static_score(ctx: Context, b: Board) -> int {
    match ctx.nnue {
        Some(ev) => network_score(ev, b),
        None => classical_score(b),
    }
}

/// The evaluation can take the board: a network knows at most 32 pieces.
pub open spec fn evaluable(ctx: Context, b: Board) -> bool {
    ctx.nnue is Some ==> piece_total(b.squares, 64) <= 32
}

/// Counting the mask of all pieces counts the pieces.
pub proof fn mask_counts_pieces(mask: u64, squares: Squares, n: int)
    requires
        n <= 64,
        forall|s: int| valid(s) ==> (#[trigger] on(mask, s) <==> squares[s] is Some),
    ensures
        count_below(mask, n) == piece_total(squares, n),
    decreases n,
{
    if n > 0 {
        mask_counts_pieces(mask, squares, n - 1);
        assert(valid(n - 1));
        assert(on(mask, n - 1) <==> squares[n - 1] is Some);
    }
}

/// The static score of a position for its side to move.
pub fn evaluate(pos: &Position, mobility_moves: Option<&MoveList>) -> (r: i32)
    requires
        pos.wf(),
        evaluable(*pos.ctx, pos@),
    ensures
        r == static_score(*pos.ctx, pos@),
{
    match &pos.ctx.nnue {
        Some(evaluator) => {
            let stm: u32 = if pos.side_to_move == Color::White {
                0
            } else {
                1
            };
            proof {
                mask_counts_pieces(pos.occ_all, pos.mailbox@, 64);
            }
            let piece_count = popcount(pos.occ_all);
            let raw = evaluator.evaluate_with_accumulators(
                &pos.nnue_accum[0],
                &pos.nnue_accum[1],
                stm,
                piece_count,
            );
            proof {
                let ft = evaluator.feature_transformer;
                let fs0 = board_features(pos.mailbox@, 0, pos.king_square@[0] as int);
                let fs1 = board_features(pos.mailbox@, 1, pos.king_square@[1] as int);
                assert(!pos.nnue_dirty@[0] && !pos.nnue_dirty@[1]);
                assert(pos.nnue_accum@[0].accumulates(ft, fs0));
                assert(pos.nnue_accum@[1].accumulates(ft, fs1));
                accumulated_sums(pos.nnue_accum@[0], ft, fs0);
                accumulated_sums(pos.nnue_accum@[1], ft, fs1);
            }
            to_centipawns(raw)
        },
        None => classical_evaluate(pos),
    }
}

fn to_centipawns(raw: i32) -> (r: i32)
    ensures
        r == quotient(wrap32(raw * 100), 328),
{
    let scaled: i32 = low_i32(raw as i64 * 100);
    div_toward_zero(scaled as i64, 328) as i32
}

/// Changing one square changes the number of pieces accordingly.
pub proof fn piece_total_update(squares: Squares, s: int, x: Option<(Color, PieceType)>, n: int)
    requires
        0 <= s < squares.len(),
        n <= squares.len(),
    ensures
        piece_total(squares.update(s, x), n) == piece_total(squares, n) + if s < n {
            (if x is Some {
                1int
            } else {
                0int
            }) - (if squares[s] is Some {
                1int
            } else {
                0int
            })
        } else {
            0int
        },
    decreases n,
{
    if n > 0 {
        piece_total_update(squares, s, x, n - 1);
    }
}

/// Moves do not add pieces, so what can be evaluated stays so.
pub proof fn moves_keep_evaluable(ctx: Context, b: Board, p: MoveParts)
    requires
        board_wf(b),
        fits(b, p),
        evaluable(ctx, b),
    ensures
        evaluable(ctx, after(b, p)),
{
    let us = b.side;
    let cleared = if p.flag == MoveFlag::EpCapture {
        b.squares.update(ep_victim(p), None)
    } else {
        b.squares
    };
    if p.flag == MoveFlag::EpCapture {
        piece_total_update(b.squares, ep_victim(p), None, 64);
    }
    piece_total_update(cleared, p.from, None, 64);
    let lifted = cleared.update(p.from, None);
    piece_total_update(lifted, p.to, Some((us, arriving(p))), 64);
    let moved = lifted.update(p.to, Some((us, arriving(p))));
    if is_castle(p) {
        let k = p.flag == MoveFlag::KingCastle;
        piece_total_update(moved, rook_home(us, k), None, 64);
        let gone = moved.update(rook_home(us, k), None);
        piece_total_update(gone, rook_castled(us, k), Some((us, PieceType::Rook)), 64);
    }
}

/// The part of a position that the network sees.
pub fn to_nnue(pos: &Position) -> (r: NnuePosition)
    ensures
        r.wf(),
        r.board@ == codes(pos.mailbox@),
        r.side_to_move == pos.side_to_move.index(),
        r.king_square@[0] == seen_king(pos.mailbox@, 0),
        r.king_square@[1] == seen_king(pos.mailbox@, 1),
{
    let mut board: [u32; 64] = [NO_PIECE; 64];
    let mut king_square: [u32; 2] = [0u32; 2];
    let ghost all = codes(pos.mailbox@);
    let mut s: u8 = 0;
    while s < 64
        invariant
            s <= 64,
            all == codes(pos.mailbox@),
            forall|t: int| 0 <= t < s ==> #[trigger] board@[t] == all[t],
            forall|t: int| 0 <= t < 64 ==> #[trigger] board@[t] < 16,
            forall|t: int| s <= t < 64 ==> #[trigger] board@[t] == NO_PIECE,
            king_square@[0] == (match last_square(all, 6, s as int) {
                Some(k) => k,
                None => 0,
            }),
            king_square@[1] == (match last_square(all, 14, s as int) {
                Some(k) => k,
                None => 0,
            }),
            king_square@[0] < 64,
            king_square@[1] < 64,
        decreases 64 - s,
    {
        if let Some((c, pt)) = pos.piece_at(s) {
            let pc: u32 = match (c.idx(), pt.idx()) {
                (0, 0) => W_PAWN,
                (0, 1) => W_KNIGHT,
                (0, 2) => W_BISHOP,
                (0, 3) => W_ROOK,
                (0, 4) => W_QUEEN,
                (0, 5) => W_KING,
                (1, 0) => B_PAWN,
                (1, 1) => B_KNIGHT,
                (1, 2) => B_BISHOP,
                (1, 3) => B_ROOK,
                (1, 4) => B_QUEEN,
                (1, 5) => B_KING,
                _ => NO_PIECE,
            };
            board[s as usize] = pc;
            if pt == PieceType::King {
                king_square[c.idx()] = s as u32;
            }
        }
        s += 1;
    }
    proof {
        assert(board@ =~= all);
    }
    let side_to_move: u32 = if pos.side_to_move == Color::White {
        0
    } else {
        1
    };
    NnuePosition { board, side_to_move, king_square }
}

} // verus!
