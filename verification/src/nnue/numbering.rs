//! What the numbers of the features tell apart, and how they are laid out.
//!
//! A trained network relies on both: its columns are addressed by these numbers.
use vstd::prelude::*;
use crate::geometry::{file, rank};
use crate::nnue::features::{
    active_features, feature_in_range, feature_index, king_bucket, orientation, piece_block,
};
use crate::nnue::position::{Piece, taken_squares};

verus! {

/// The number of a real piece: white pawn to king are 1 to 6, black pawn to king
/// are 9 to 14.
pub open spec fn real_piece(pc: int) -> bool {
    1 <= pc <= 6 || 9 <= pc <= 14
}

pub open spec fn is_king(pc: int) -> bool {
    pc == 6 || pc == 14
}

/// A square as the network sees it, without bit operations.
proof fn turned(s: u32, perspective: int, ksq: int)
    requires
        s < 64,
        perspective == 0 || perspective == 1,
        0 <= ksq < 64,
    ensures
        (s ^ orientation(perspective, ksq)) == 8 * (if perspective == 0 {
            rank(s as int)
        } else {
            7 - rank(s as int)
        }) + (if file(ksq) < 4 {
            7 - file(s as int)
        } else {
            file(s as int)
        }),
{
    assert((s ^ 7) == 8 * (s / 8) + (7 - s % 8) && (s ^ 0) == s && (s ^ 63) == 8 * (7 - s / 8) + (7
        - s % 8) && (s ^ 56) == 8 * (7 - s / 8) + s % 8) by (bit_vector)
        requires
            s < 64,
    ;
}

proof fn coordinates(r: int, f: int)
    requires
        0 <= r < 8,
        0 <= f < 8,
    ensures
        rank(8 * r + f) == r,
        file(8 * r + f) == f,
        0 <= 8 * r + f < 64,
{
}

/// No two features have the same number: for one perspective and one king
/// square, the number tells square and piece, but for the two kings.
pub proof fn number_tells_feature(
    perspective: int,
    s: u32,
    pc: int,
    t: u32,
    qc: int,
    ksq: int,
)
    requires
        perspective == 0 || perspective == 1,
        s < 64,
        t < 64,
        0 <= ksq < 64,
        real_piece(pc),
        real_piece(qc),
        feature_index(perspective, s, pc, ksq) == feature_index(perspective, t, qc, ksq),
    ensures
        s == t,
        pc == qc || (is_king(pc) && is_king(qc)),
{
    turned(s, perspective, ksq);
    turned(t, perspective, ksq);
    assert(s == 8 * rank(s as int) + file(s as int));
    assert(t == 8 * rank(t as int) + file(t as int));
}

/// Square and piece stay within the block of the king's square.
proof fn below_block(perspective: int, s: u32, pc: int, ksq: int)
    requires
        perspective == 0 || perspective == 1,
        s < 64,
        0 <= ksq < 64,
        real_piece(pc),
    ensures
        704 * king_bucket(perspective, ksq) <= feature_index(perspective, s, pc, ksq) < 704 * (
        king_bucket(perspective, ksq) + 1),
{
    let o = orientation(perspective, ksq);
    feature_in_range(perspective, s, pc, ksq);
    assert(0 <= (s ^ o) < 64);
    assert(0 <= piece_block(perspective, pc) <= 10);
}

proof fn bucket_tells_king(perspective: int, ksq: int, lsq: int)
    requires
        0 <= ksq < 64,
        0 <= lsq < 64,
        file(ksq) < 4 <==> file(lsq) < 4,
        king_bucket(perspective, ksq) == king_bucket(perspective, lsq),
    ensures
        ksq == lsq,
{
    assert(ksq == 8 * rank(ksq) + file(ksq));
    assert(lsq == 8 * rank(lsq) + file(lsq));
}

/// The number also tells the king's square, up to a reflection of the board in
/// its middle: two king squares in the same half share no number.
pub proof fn number_tells_king(
    perspective: int,
    s: u32,
    pc: int,
    ksq: int,
    t: u32,
    qc: int,
    lsq: int,
)
    requires
        perspective == 0 || perspective == 1,
        s < 64,
        t < 64,
        0 <= ksq < 64,
        0 <= lsq < 64,
        file(ksq) < 4 <==> file(lsq) < 4,
        real_piece(pc),
        real_piece(qc),
        feature_index(perspective, s, pc, ksq) == feature_index(perspective, t, qc, lsq),
    ensures
        ksq == lsq,
{
    below_block(perspective, s, pc, ksq);
    below_block(perspective, t, qc, lsq);
    assert(king_bucket(perspective, ksq) == king_bucket(perspective, lsq));
    bucket_tells_king(perspective, ksq, lsq);
}

/// A board reflected in its middle, the king with it, has the same numbers.
pub proof fn reflection_keeps_number(perspective: int, s: u32, pc: int, ksq: int)
    requires
        perspective == 0 || perspective == 1,
        s < 64,
        0 <= ksq < 64,
        real_piece(pc),
    ensures
        feature_index(
            perspective,
            (8 * rank(s as int) + 7 - file(s as int)) as u32,
            pc,
            8 * rank(ksq) + 7 - file(ksq),
        ) == feature_index(perspective, s, pc, ksq),
{
    let (r, f) = (rank(s as int), file(s as int));
    let (q, g) = (rank(ksq), file(ksq));
    let t = (8 * r + 7 - f) as u32;
    let lsq = 8 * q + 7 - g;
    coordinates(r, 7 - f);
    coordinates(q, 7 - g);
    assert(rank(t as int) == r && file(t as int) == 7 - f);
    assert(rank(lsq) == q && file(lsq) == 7 - g);
    turned(s, perspective, ksq);
    turned(t, perspective, lsq);
    assert((s ^ orientation(perspective, ksq)) == (t ^ orientation(perspective, lsq)));
    assert(king_bucket(perspective, ksq) == king_bucket(perspective, lsq));
}

/// Pieces of one kind and different colours: the enemy's is numbered 64 above
/// one's own, and the two kings share their numbers.
pub proof fn enemy_is_next_to_own(perspective: int, s: u32, kind: int, ksq: int)
    requires
        perspective == 0 || perspective == 1,
        s < 64,
        0 <= ksq < 64,
        1 <= kind <= 6,
    ensures
        ({
            let own = feature_index(perspective, s, 8 * perspective + kind, ksq);
            let enemy = feature_index(perspective, s, 8 * (1 - perspective) + kind, ksq);
            enemy == if kind == 6 {
                own
            } else {
                own + 64
            }
        }),
{
}

/// From pawn to king, each kind is numbered 128 above the one before.
pub proof fn kinds_in_order(perspective: int, s: u32, kind: int, ksq: int)
    requires
        perspective == 0 || perspective == 1,
        s < 64,
        0 <= ksq < 64,
        1 <= kind <= 5,
    ensures
        feature_index(perspective, s, 8 * perspective + kind + 1, ksq) == feature_index(
            perspective,
            s,
            8 * perspective + kind,
            ksq,
        ) + 128,
{
}

/// A king that goes one rank towards the enemy lowers the numbers by four
/// blocks of 704, and one that goes one file towards the middle raises them by
/// one block.
pub proof fn king_steps(perspective: int, s: u32, pc: int, ksq: int)
    requires
        perspective == 0 || perspective == 1,
        s < 64,
        0 <= ksq < 64,
        real_piece(pc),
    ensures
        perspective == 0 && rank(ksq) < 7 ==> feature_index(0, s, pc, ksq + 8) == feature_index(
            0,
            s,
            pc,
            ksq,
        ) - 4 * 704,
        perspective == 1 && rank(ksq) > 0 ==> feature_index(1, s, pc, ksq - 8) == feature_index(
            1,
            s,
            pc,
            ksq,
        ) - 4 * 704,
        file(ksq) < 3 ==> feature_index(perspective, s, pc, ksq + 1) == feature_index(
            perspective,
            s,
            pc,
            ksq,
        ) + 704,
        file(ksq) > 4 ==> feature_index(perspective, s, pc, ksq - 1) == feature_index(
            perspective,
            s,
            pc,
            ksq,
        ) + 704,
{
    assert(file(ksq + 8) == file(ksq) && rank(ksq + 8) == rank(ksq) + 1);
    assert(file(ksq - 8) == file(ksq) && rank(ksq - 8) == rank(ksq) - 1);
    if file(ksq) < 3 {
        assert(file(ksq + 1) == file(ksq) + 1 && rank(ksq + 1) == rank(ksq));
    }
    if file(ksq) > 4 {
        assert(file(ksq - 1) == file(ksq) - 1 && rank(ksq - 1) == rank(ksq));
    }
}

/// A piece that goes one rank away from one's own side raises its number by
/// eight; one that goes one file away from the king's half raises it by one, or
/// lowers it, as the king stands on the left or on the right.
pub proof fn piece_steps(perspective: int, s: u32, pc: int, ksq: int)
    requires
        perspective == 0 || perspective == 1,
        s < 64,
        0 <= ksq < 64,
        real_piece(pc),
    ensures
        perspective == 0 && rank(s as int) < 7 ==> feature_index(0, (s + 8) as u32, pc, ksq)
            == feature_index(0, s, pc, ksq) + 8,
        perspective == 1 && rank(s as int) > 0 ==> feature_index(1, (s - 8) as u32, pc, ksq)
            == feature_index(1, s, pc, ksq) + 8,
        file(s as int) < 7 ==> feature_index(perspective, (s + 1) as u32, pc, ksq) == feature_index(
            perspective,
            s,
            pc,
            ksq,
        ) + if file(ksq) < 4 {
            -1int
        } else {
            1int
        },
{
    let (r, f) = (rank(s as int), file(s as int));
    turned(s, perspective, ksq);
    if r < 7 {
        coordinates(r + 1, f);
        step_of(perspective, s, (s + 8) as u32, ksq);
    }
    if r > 0 {
        coordinates(r - 1, f);
        step_of(perspective, s, (s - 8) as u32, ksq);
    }
    if f < 7 {
        coordinates(r, f + 1);
        step_of(perspective, s, (s + 1) as u32, ksq);
    }
}

/// How the seen square changes from one square to another.
proof fn step_of(perspective: int, s: u32, t: u32, ksq: int)
    requires
        perspective == 0 || perspective == 1,
        s < 64,
        t < 64,
        0 <= ksq < 64,
    ensures
        (t ^ orientation(perspective, ksq)) - (s ^ orientation(perspective, ksq)) == 8 * (
        if perspective == 0 {
            rank(t as int) - rank(s as int)
        } else {
            rank(s as int) - rank(t as int)
        }) + (if file(ksq) < 4 {
            file(s as int) - file(t as int)
        } else {
            file(t as int) - file(s as int)
        }),
{
    turned(s, perspective, ksq);
    turned(t, perspective, ksq);
}

/// Where the numbers begin: with the king in the far right corner, one's own
/// pawns are numbered as their squares are, counted from one's own side.
pub proof fn numbers_begin(s: u32)
    requires
        s < 64,
    ensures
        feature_index(0, s, 1, 63) == s,
        feature_index(1, s, 9, 7) == 8 * (7 - rank(s as int)) + file(s as int),
{
    turned(s, 0, 63);
    turned(s, 1, 7);
}

proof fn seen_below(board: Seq<Piece>, perspective: int, ksq: int, n: int)
    requires
        0 <= n <= 64,
    ensures
        ({
            let l = active_features(board, perspective, ksq, n);
            &&& forall|s: int|
                0 <= s < n && board[s] != 0 ==> l.contains(
                    feature_index(perspective, s as u32, #[trigger] board[s] as int, ksq),
                )
            &&& forall|i: int| 0 <= i < l.len() ==> exists|s: int|
                0 <= s < n && board[s] != 0 && #[trigger] l[i] == feature_index(
                    perspective,
                    s as u32,
                    #[trigger] board[s] as int,
                    ksq,
                )
            &&& l.len() == taken_squares(board, n).len()
        }),
    decreases n,
{
    if n > 0 {
        seen_below(board, perspective, ksq, n - 1);
        let before = active_features(board, perspective, ksq, n - 1);
        let l = active_features(board, perspective, ksq, n);
        let x = feature_index(perspective, (n - 1) as u32, board[n - 1] as int, ksq);
        assert forall|s: int| 0 <= s < n && board[s] != 0 implies l.contains(
            feature_index(perspective, s as u32, #[trigger] board[s] as int, ksq),
        ) by {
            let y = feature_index(perspective, s as u32, board[s] as int, ksq);
            if s < n - 1 {
                assert(before.contains(y));
                let i = choose|i: int| 0 <= i < before.len() && before[i] == y;
                assert(l[i] == y);
            } else {
                assert(l[before.len() as int] == x);
            }
        }
        assert forall|i: int| 0 <= i < l.len() implies exists|s: int|
            0 <= s < n && board[s] != 0 && #[trigger] l[i] == feature_index(
                perspective,
                s as u32,
                #[trigger] board[s] as int,
                ksq,
            ) by {
            if i < before.len() {
                assert(l[i] == before[i]);
                let s = choose|s: int|
                    0 <= s < n - 1 && board[s] != 0 && before[i] == feature_index(
                        perspective,
                        s as u32,
                        #[trigger] board[s] as int,
                        ksq,
                    );
                assert(board[s] != 0);
            } else {
                assert(board[n - 1] != 0);
            }
        }
    }
}

/// Every piece on the board is seen, from either side, and nothing else: as many
/// features are active as there are pieces, and each is that of a piece where it
/// stands.
pub proof fn every_piece_is_seen(board: Seq<Piece>, perspective: int, ksq: int)
    ensures
        ({
            let l = active_features(board, perspective, ksq, 64);
            &&& forall|s: int|
                0 <= s < 64 && board[s] != 0 ==> l.contains(
                    feature_index(perspective, s as u32, #[trigger] board[s] as int, ksq),
                )
            &&& forall|i: int| 0 <= i < l.len() ==> exists|s: int|
                0 <= s < 64 && board[s] != 0 && #[trigger] l[i] == feature_index(
                    perspective,
                    s as u32,
                    #[trigger] board[s] as int,
                    ksq,
                )
            &&& l.len() == taken_squares(board, 64).len()
        }),
{
    seen_below(board, perspective, ksq, 64);
}

} // verus!
