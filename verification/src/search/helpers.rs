//! Mate scores in the table, draws, and the scores of finished games.
use vstd::prelude::*;
use crate::arith::{neg_i32, wadd, wneg, wsub};
use crate::bitboard::{file_of, popcount, rank_of};
use crate::bits::{count_below, group_bits, on};
use crate::eval::{MATE_SCORE, mask_counts_pieces, piece_total};
use crate::geometry::{file, rank, valid};
use crate::movegen::is_in_check;
use crate::pieces::{Color, PieceType};
use crate::position::Position;
use crate::rules::{Board, Squares, in_check};
use crate::safety::piece_on;
use crate::search::thread_state::{SearchState, is_repetition};
use crate::zobrist::board_hash;

verus! {

broadcast use group_bits;

/// Scores this close to mate count the plies to it.
pub const MAX_MATE_PLY: i32 = 1000;

/// A score as the table holds it: mate counted from the position itself, not
/// from the root.
pub open spec fn to_table(score: i32, ply: i32) -> i32 {
    if score >= 99_000 {
        wadd(score, ply)
    } else if score <= -99_000 {
        wsub(score, ply)
    } else {
        score
    }
}

/// A score from the table, counted from the root again.
pub open spec fn from_table(score: i32, ply: i32) -> i32 {
    if score >= 99_000 {
        wsub(score, ply)
    } else if score <= -99_000 {
        wadd(score, ply)
    } else {
        score
    }
}

/// Scores come back from the table as they went in.
pub proof fn table_round_trip(score: i32, ply: i32)
    requires
        0 <= ply <= 1000,
        -100_000 <= score <= 100_000,
    ensures
        from_table(to_table(score, ply), ply) == score,
{
}

pub fn score_to_tt(score: i32, ply: i32) -> (r: i32)
    ensures
        r == to_table(score, ply),
{
    if score >= MATE_SCORE - MAX_MATE_PLY {
        score.wrapping_add(ply)
    } else if score <= -(MATE_SCORE - MAX_MATE_PLY) {
        score.wrapping_sub(ply)
    } else {
        score
    }
}

pub fn score_from_tt(score: i32, ply: i32) -> (r: i32)
    ensures
        r == from_table(score, ply),
{
    if score >= MATE_SCORE - MAX_MATE_PLY {
        score.wrapping_sub(ply)
    } else if score <= -(MATE_SCORE - MAX_MATE_PLY) {
        score.wrapping_add(ply)
    } else {
        score
    }
}

/// The number of pieces of one kind on the squares below `n`.
pub open spec fn kind_total(squares: Squares, c: Color, pt: PieceType, n: int) -> int
    decreases n,
{
    if n <= 0 {
        0
    } else {
        kind_total(squares, c, pt, n - 1) + if squares[n - 1] == Some((c, pt)) {
            1int
        } else {
            0int
        }
    }
}

/// A bishop stands on a square of the given shade.
pub open spec fn bishop_on_shade(squares: Squares, shade: int) -> bool {
    exists|s: int|
        valid(s) && #[trigger] piece_on(squares, s) == PieceType::Bishop && (rank(s) + file(s)) % 2
            == shade
}

/// Neither side can mate: bare kings, one minor piece, or bishops that all
/// stand on squares of one shade.
pub open spec fn insufficient_material(b: Board) -> bool {
    let total = piece_total(b.squares, 64);
    if total == 2 {
        true
    } else if total == 3 {
        exists|c: Color|
            #[trigger] kind_total(b.squares, c, PieceType::Bishop, 64) == 1 || kind_total(
                b.squares,
                c,
                PieceType::Knight,
                64,
            ) == 1
    } else {
        &&& forall|s: int|
            valid(s) ==> #[trigger] piece_on(b.squares, s) == PieceType::Bishop || piece_on(
                b.squares,
                s,
            ) == PieceType::King || piece_on(b.squares, s) == PieceType::NoPiece
        &&& bishop_on_shade(b.squares, 0) != bishop_on_shade(b.squares, 1)
    }
}

proof fn mask_counts_kind(mask: u64, squares: Squares, c: Color, pt: PieceType, n: int)
    requires
        n <= 64,
        forall|s: int| valid(s) ==> (#[trigger] on(mask, s) <==> squares[s] == Some((c, pt))),
    ensures
        count_below(mask, n) == kind_total(squares, c, pt, n),
    decreases n,
{
    if n > 0 {
        mask_counts_kind(mask, squares, c, pt, n - 1);
        assert(valid(n - 1));
        assert(on(mask, n - 1) <==> squares[n - 1] == Some((c, pt)));
    }
}

/// Whether a colour has exactly one piece of a kind.
fn has_one(pos: &Position, c: Color, pt: PieceType) -> (r: bool)
    requires
        pos.masks_wf(),
        pt != PieceType::NoPiece,
    ensures
        r == (kind_total(pos.mailbox@, c, pt, 64) == 1),
{
    proof {
        let mask = pos.pieces[c.index()][pt.index()];
        assert forall|s: int| valid(s) implies (#[trigger] on(mask, s) <==> pos.mailbox@[s] == Some(
            (c, pt),
        )) by {
            assert(on(pos.pieces[c.index()][pt.index()], s) <==> pos.mailbox@[s] == Some((c, pt)));
        }
        mask_counts_kind(mask, pos.mailbox@, c, pt, 64);
    }
    popcount(pos.pieces[c.idx()][pt.idx()]) == 1
}

pub fn is_insufficient_material(pos: &Position) -> (r: bool)
    requires
        pos.masks_wf(),
    ensures
        r == insufficient_material(pos@),
{
    let ghost squares = pos.mailbox@;
    proof {
        mask_counts_pieces(pos.occ_all, squares, 64);
    }
    let total_pieces = popcount(pos.occ_all);
    if total_pieces == 2 {
        return true;
    }
    if total_pieces == 3 {
        let r = has_one(pos, Color::White, PieceType::Bishop) || has_one(
            pos,
            Color::White,
            PieceType::Knight,
        ) || has_one(pos, Color::Black, PieceType::Bishop) || has_one(
            pos,
            Color::Black,
            PieceType::Knight,
        );
        proof {
            if r {
                assert(kind_total(squares, Color::White, PieceType::Bishop, 64) == 1 || kind_total(
                    squares,
                    Color::White,
                    PieceType::Knight,
                    64,
                ) == 1 || kind_total(squares, Color::Black, PieceType::Bishop, 64) == 1
                    || kind_total(squares, Color::Black, PieceType::Knight, 64) == 1);
            }
        }
        return r;
    }
    let mut light = false;
    let mut dark = false;
    let mut s: u8 = 0;
    while s < 64
        invariant
            s <= 64,
            pos.masks_wf(),
            squares == pos.mailbox@,
            forall|t: int|
                0 <= t < s ==> #[trigger] piece_on(squares, t) == PieceType::Bishop || piece_on(
                    squares,
                    t,
                ) == PieceType::King || piece_on(squares, t) == PieceType::NoPiece,
            light <==> exists|t: int|
                0 <= t < s && #[trigger] piece_on(squares, t) == PieceType::Bishop && (rank(t)
                    + file(t)) % 2 == 1,
            dark <==> exists|t: int|
                0 <= t < s && #[trigger] piece_on(squares, t) == PieceType::Bishop && (rank(t)
                    + file(t)) % 2 == 0,
            piece_total(squares, 64) != 2,
            piece_total(squares, 64) != 3,
        decreases 64 - s,
    {
        if let Some((_, pt)) = pos.piece_at(s) {
            proof {
                assert(piece_on(squares, s as int) == pt);
            }
            if pt == PieceType::Bishop {
                if (rank_of(s) + file_of(s)) % 2 == 1 {
                    light = true;
                } else {
                    dark = true;
                }
            } else if pt != PieceType::King {
                proof {
                    assert(valid(s as int));
                    assert(squares[s as int] matches Some((_, q)) ==> q != PieceType::NoPiece);
                }
                return false;
            }
        }
        s += 1;
    }
    proof {
        assert(light == bishop_on_shade(squares, 1)) by {
            if light {
                let t = choose|t: int|
                    0 <= t < 64 && #[trigger] piece_on(squares, t) == PieceType::Bishop && (rank(t)
                        + file(t)) % 2 == 1;
                assert(valid(t));
            }
        }
        assert(dark == bishop_on_shade(squares, 0)) by {
            if dark {
                let t = choose|t: int|
                    0 <= t < 64 && #[trigger] piece_on(squares, t) == PieceType::Bishop && (rank(t)
                        + file(t)) % 2 == 0;
                assert(valid(t));
            }
        }
    }
    light != dark
}

/// The score of a position where the game is over, or drawn by rule; nothing
/// where it goes on.
pub open spec fn final_score(b: Board, reps: Seq<u64>, ply: i32, has_moves: bool) -> Option<i32> {
    if !has_moves {
        if in_check(b, b.side) {
            Some(wneg(wsub(100_000, ply)))
        } else {
            Some(0)
        }
    } else if insufficient_material(b) || b.halfmove >= 100 {
        Some(0)
    } else if is_repetition(reps, board_hash(b), b.halfmove) {
        Some(0)
    } else {
        None
    }
}

pub fn terminal_score(
    pos: &Position,
    state: &SearchState,
    ply: i32,
    has_legal_moves: bool,
) -> (r: Option<i32>)
    requires
        pos.wf(),
    ensures
        r == final_score(pos@, state@.reps, ply, has_legal_moves),
{
    if !has_legal_moves {
        return Some(
            if is_in_check(pos, pos.side_to_move) {
                neg_i32(MATE_SCORE.wrapping_sub(ply))
            } else {
                0
            },
        );
    }
    if is_insufficient_material(pos) || pos.halfmove_clock >= 100 {
        return Some(0);
    }
    if state.is_search_repetition(pos.zobrist_key, pos.halfmove_clock) {
        return Some(0);
    }
    None
}

} // verus!
