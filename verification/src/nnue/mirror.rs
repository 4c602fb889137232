//! The network sees a position with the colours exchanged as the same position.
use vstd::prelude::*;
use crate::geometry::{file, rank};
use crate::nnue::accum::{psqt_sum, sums_of, weight_sum};
use crate::nnue::features::{active_features, feature_index, orientation};
use crate::nnue::inference::{NnueEvaluator, position_features};
use crate::nnue::position::{NO_PIECE, Piece, Position, taken_squares};
use crate::nnue::transformer::FeatureTransformer;

verus! {

/// The square on the other side of the board, on the same file.
pub open spec fn flipped(s: int) -> int {
    56 - 8 * rank(s) + file(s)
}

/// The same piece of the other colour.
pub open spec fn recoloured(pc: Piece) -> int {
    if pc == NO_PIECE {
        0
    } else if pc < 8 {
        pc + 8
    } else {
        pc - 8
    }
}

/// An empty square, or a piece of either colour.
pub open spec fn is_piece(pc: Piece) -> bool {
    pc == 0 || 1 <= pc <= 6 || 9 <= pc <= 14
}

/// `q` is `p` with the board turned over and the colours exchanged.
pub open spec fn colour_flip(p: Position, q: Position) -> bool {
    &&& forall|s: int| 0 <= s < 64 ==> q.board@[flipped(s)] == recoloured(#[trigger] p.board@[s])
    &&& q.side_to_move == 1 - p.side_to_move
    &&& q.king_square@[0] == flipped(p.king_square@[1] as int)
    &&& q.king_square@[1] == flipped(p.king_square@[0] as int)
}

/// The sum over the squares below `n`.
pub open spec fn sum_below(h: spec_fn(int) -> int, n: int) -> int
    decreases n,
{
    if n <= 0 {
        0
    } else {
        sum_below(h, n - 1) + h(n - 1)
    }
}

spec fn row_sum(h: spec_fn(int) -> int, r: int) -> int {
    h(8 * r) + h(8 * r + 1) + h(8 * r + 2) + h(8 * r + 3) + h(8 * r + 4) + h(8 * r + 5) + h(
        8 * r + 6,
    ) + h(8 * r + 7)
}

proof fn next_row(h: spec_fn(int) -> int, r: int)
    requires
        0 <= r,
    ensures
        sum_below(h, 8 * r + 8) == sum_below(h, 8 * r) + row_sum(h, r),
{
    let n = 8 * r;
    assert(sum_below(h, n + 1) == sum_below(h, n) + h(n));
    assert(sum_below(h, n + 2) == sum_below(h, n + 1) + h(n + 1));
    assert(sum_below(h, n + 3) == sum_below(h, n + 2) + h(n + 2));
    assert(sum_below(h, n + 4) == sum_below(h, n + 3) + h(n + 3));
    assert(sum_below(h, n + 5) == sum_below(h, n + 4) + h(n + 4));
    assert(sum_below(h, n + 6) == sum_below(h, n + 5) + h(n + 5));
    assert(sum_below(h, n + 7) == sum_below(h, n + 6) + h(n + 6));
    assert(sum_below(h, n + 8) == sum_below(h, n + 7) + h(n + 7));
}

proof fn all_rows(h: spec_fn(int) -> int)
    ensures
        sum_below(h, 64) == row_sum(h, 0) + row_sum(h, 1) + row_sum(h, 2) + row_sum(h, 3)
            + row_sum(h, 4) + row_sum(h, 5) + row_sum(h, 6) + row_sum(h, 7),
{
    next_row(h, 0);
    next_row(h, 1);
    next_row(h, 2);
    next_row(h, 3);
    next_row(h, 4);
    next_row(h, 5);
    next_row(h, 6);
    next_row(h, 7);
    assert(sum_below(h, 0) == 0);
}

/// Turning the board over does not change a sum over all squares.
pub proof fn flipped_sum(h: spec_fn(int) -> int, g: spec_fn(int) -> int)
    requires
        forall|s: int| 0 <= s < 64 ==> #[trigger] h(s) == g(flipped(s)),
    ensures
        sum_below(h, 64) == sum_below(g, 64),
{
    all_rows(h);
    all_rows(g);
    assert forall|r: int| 0 <= r < 8 implies #[trigger] row_sum(h, r) == row_sum(g, 7 - r) by {
        assert forall|f: int| 0 <= f < 8 implies #[trigger] h(8 * r + f) == g(8 * (7 - r) + f) by {
            assert(flipped(8 * r + f) == 8 * (7 - r) + f);
        }
        assert(h(8 * r + 0) == g(8 * (7 - r) + 0));
        assert(h(8 * r + 1) == g(8 * (7 - r) + 1));
        assert(h(8 * r + 2) == g(8 * (7 - r) + 2));
        assert(h(8 * r + 3) == g(8 * (7 - r) + 3));
        assert(h(8 * r + 4) == g(8 * (7 - r) + 4));
        assert(h(8 * r + 5) == g(8 * (7 - r) + 5));
        assert(h(8 * r + 6) == g(8 * (7 - r) + 6));
        assert(h(8 * r + 7) == g(8 * (7 - r) + 7));
    }
    assert(row_sum(h, 0) == row_sum(g, 7));
    assert(row_sum(h, 1) == row_sum(g, 6));
    assert(row_sum(h, 2) == row_sum(g, 5));
    assert(row_sum(h, 3) == row_sum(g, 4));
    assert(row_sum(h, 4) == row_sum(g, 3));
    assert(row_sum(h, 5) == row_sum(g, 2));
    assert(row_sum(h, 6) == row_sum(g, 1));
    assert(row_sum(h, 7) == row_sum(g, 0));
}

/// A feature and its mirror image have the same number.
proof fn flipped_feature(perspective: int, s: int, pc: Piece, ksq: int)
    requires
        perspective == 0 || perspective == 1,
        0 <= s < 64,
        0 <= ksq < 64,
        is_piece(pc),
        pc != NO_PIECE,
    ensures
        feature_index(1 - perspective, flipped(s) as u32, recoloured(pc), flipped(ksq))
            == feature_index(perspective, s as u32, pc as int, ksq),
{
    let u = s as u32;
    let v = flipped(s) as u32;
    flipped_by_bits(u);
    assert(v == u ^ 56);
    assert(file(flipped(ksq)) == file(ksq));
    assert(rank(flipped(ksq)) == 7 - rank(ksq));
    let o = orientation(perspective, ksq);
    let w = orientation(1 - perspective, flipped(ksq));
    assert((u ^ 56) ^ w == u ^ o) by (bit_vector)
        requires
            (o == 7 && w == 63) || (o == 0 && w == 56) || (o == 63 && w == 7) || (o == 56 && w
                == 0),
    ;
}

spec fn weight_at(
    ft: FeatureTransformer,
    board: Seq<Piece>,
    perspective: int,
    ksq: int,
    j: int,
) -> spec_fn(int) -> int {
    |s: int|
        if board[s] != NO_PIECE {
            ft.weight(feature_index(perspective, s as u32, board[s] as int, ksq), j)
        } else {
            0
        }
}

spec fn psqt_at(
    ft: FeatureTransformer,
    board: Seq<Piece>,
    perspective: int,
    ksq: int,
    k: int,
) -> spec_fn(int) -> int {
    |s: int|
        if board[s] != NO_PIECE {
            ft.psqt_weight(feature_index(perspective, s as u32, board[s] as int, ksq), k)
        } else {
            0
        }
}

spec fn taken_at(board: Seq<Piece>) -> spec_fn(int) -> int {
    |s: int|
        if board[s] != NO_PIECE {
            1
        } else {
            0
        }
}

proof fn weight_by_square(
    ft: FeatureTransformer,
    board: Seq<Piece>,
    perspective: int,
    ksq: int,
    j: int,
    n: int,
)
    requires
        0 <= n <= 64,
    ensures
        weight_sum(ft, active_features(board, perspective, ksq, n), j) == sum_below(
            weight_at(ft, board, perspective, ksq, j),
            n,
        ),
    decreases n,
{
    if n > 0 {
        weight_by_square(ft, board, perspective, ksq, j, n - 1);
        let before = active_features(board, perspective, ksq, n - 1);
        let x = feature_index(perspective, (n - 1) as u32, board[n - 1] as int, ksq);
        assert(before.push(x).drop_last() =~= before);
    }
}

proof fn psqt_by_square(
    ft: FeatureTransformer,
    board: Seq<Piece>,
    perspective: int,
    ksq: int,
    k: int,
    n: int,
)
    requires
        0 <= n <= 64,
    ensures
        psqt_sum(ft, active_features(board, perspective, ksq, n), k) == sum_below(
            psqt_at(ft, board, perspective, ksq, k),
            n,
        ),
    decreases n,
{
    if n > 0 {
        psqt_by_square(ft, board, perspective, ksq, k, n - 1);
        let before = active_features(board, perspective, ksq, n - 1);
        let x = feature_index(perspective, (n - 1) as u32, board[n - 1] as int, ksq);
        assert(before.push(x).drop_last() =~= before);
    }
}

proof fn taken_by_square(board: Seq<Piece>, n: int)
    requires
        0 <= n <= 64,
    ensures
        taken_squares(board, n).len() == sum_below(taken_at(board), n),
    decreases n,
{
    if n > 0 {
        taken_by_square(board, n - 1);
    }
}

/// What one side sees is what the other sees on the flipped board.
pub proof fn flipped_sums(ft: FeatureTransformer, p: Position, q: Position, perspective: int)
    requires
        p.wf(),
        forall|s: int| 0 <= s < 64 ==> is_piece(#[trigger] p.board@[s]),
        colour_flip(p, q),
        perspective == 0 || perspective == 1,
    ensures
        sums_of(ft, position_features(p, perspective)) == sums_of(
            ft,
            position_features(q, 1 - perspective),
        ),
{
    let ksq = p.king_square@[perspective] as int;
    let osq = q.king_square@[1 - perspective] as int;
    let fs = active_features(p.board@, perspective, ksq, 64);
    let gs = active_features(q.board@, 1 - perspective, osq, 64);
    assert(osq == flipped(ksq));
    assert forall|s: int| 0 <= s < 64 && p.board@[s] != NO_PIECE implies #[trigger] feature_index(
        1 - perspective,
        flipped(s) as u32,
        q.board@[flipped(s)] as int,
        osq,
    ) == feature_index(perspective, s as u32, p.board@[s] as int, ksq) by {
        flipped_feature(perspective, s, p.board@[s], ksq);
    }
    assert forall|j: int| 0 <= j < 1536 implies weight_sum(ft, fs, j) == weight_sum(ft, gs, j) by {
        weight_by_square(ft, p.board@, perspective, ksq, j, 64);
        weight_by_square(ft, q.board@, 1 - perspective, osq, j, 64);
        let h = weight_at(ft, p.board@, perspective, ksq, j);
        let g = weight_at(ft, q.board@, 1 - perspective, osq, j);
        assert forall|s: int| 0 <= s < 64 implies #[trigger] h(s) == g(flipped(s)) by {
            assert(q.board@[flipped(s)] == recoloured(p.board@[s]));
        }
        flipped_sum(h, g);
    }
    assert forall|k: int| 0 <= k < 8 implies psqt_sum(ft, fs, k) == psqt_sum(ft, gs, k) by {
        psqt_by_square(ft, p.board@, perspective, ksq, k, 64);
        psqt_by_square(ft, q.board@, 1 - perspective, osq, k, 64);
        let h = psqt_at(ft, p.board@, perspective, ksq, k);
        let g = psqt_at(ft, q.board@, 1 - perspective, osq, k);
        assert forall|s: int| 0 <= s < 64 implies #[trigger] h(s) == g(flipped(s)) by {
            assert(q.board@[flipped(s)] == recoloured(p.board@[s]));
        }
        flipped_sum(h, g);
    }
    assert(sums_of(ft, fs).entries =~= sums_of(ft, gs).entries);
    assert(sums_of(ft, fs).buckets =~= sums_of(ft, gs).buckets);
}

/// For every network, the score of a position for its side to move does not
/// change when the board is turned over and the colours are exchanged.
pub proof fn flip_keeps_score(ev: NnueEvaluator, p: Position, q: Position)
    requires
        p.wf(),
        forall|s: int| 0 <= s < 64 ==> is_piece(#[trigger] p.board@[s]),
        colour_flip(p, q),
    ensures
        ev.evaluation(q) == ev.evaluation(p),
{
    flipped_sums(ev.feature_transformer, p, q, 0);
    flipped_sums(ev.feature_transformer, p, q, 1);
    taken_by_square(p.board@, 64);
    taken_by_square(q.board@, 64);
    let h = taken_at(p.board@);
    let g = taken_at(q.board@);
    assert forall|s: int| 0 <= s < 64 implies #[trigger] h(s) == g(flipped(s)) by {
        assert(q.board@[flipped(s)] == recoloured(p.board@[s]));
    }
    flipped_sum(h, g);
}

/// The flipped square is the one whose number differs in the three bits of the
/// rank.
pub proof fn flipped_by_bits(s: u32)
    requires
        s < 64,
    ensures
        flipped(s as int) == s ^ 56,
{
    assert(s ^ 56 == 56 - (s / 8) * 8 + s % 8) by (bit_vector)
        requires
            s < 64,
    ;
}

} // verus!
