//! When a game is drawn, and when it goes on.
use vstd::prelude::*;
use crate::eval::{piece_total, piece_total_update};
use crate::geometry::{file, rank, valid};
use crate::pieces::{Color, PieceType};
use crate::rules::{Board, Squares, board_wf, king_at_home, king_of};
use crate::safety::piece_on;
use crate::search::helpers::{bishop_on_shade, final_score, insufficient_material, kind_total};
use crate::search::thread_state::{is_repetition, occurrences};
use crate::zobrist::board_hash;

verus! {

proof fn occurs(reps: Seq<u64>, key: u64, start: int, end: int)
    requires
        0 <= start,
        end <= reps.len(),
    ensures
        occurrences(reps, key, start, end) >= 0,
        occurrences(reps, key, start, end) >= 1 <==> exists|i: int|
            start <= i < end && #[trigger] reps[i] == key,
        occurrences(reps, key, start, end) >= 2 <==> exists|i: int, j: int|
            start <= i < j < end && #[trigger] reps[i] == key && #[trigger] reps[j] == key,
    decreases end - start,
{
    if start < end {
        occurs(reps, key, start + 1, end);
        if occurrences(reps, key, start, end) >= 2 {
            if reps[start] == key {
                let j = choose|j: int| start + 1 <= j < end && #[trigger] reps[j] == key;
                assert(reps[start] == key && reps[j] == key);
            } else {
                let (i, j) = choose|i: int, j: int|
                    start + 1 <= i < j < end && #[trigger] reps[i] == key && #[trigger] reps[j]
                        == key;
                assert(reps[i] == key && reps[j] == key);
            }
        }
        if exists|i: int, j: int|
            start <= i < j < end && #[trigger] reps[i] == key && #[trigger] reps[j] == key {
            let (i, j) = choose|i: int, j: int|
                start <= i < j < end && #[trigger] reps[i] == key && #[trigger] reps[j] == key;
            assert(start + 1 <= j < end && reps[j] == key);
            if i > start {
                assert(start + 1 <= i < j && reps[i] == key);
            }
        }
        if occurrences(reps, key, start, end) >= 1 {
            if reps[start] == key {
            } else {
                let i = choose|i: int| start + 1 <= i < end && #[trigger] reps[i] == key;
                assert(reps[i] == key);
            }
        }
    }
}

/// A position counts as repeated exactly if it occurs at two places among the
/// positions since the last move that cannot be taken back.
pub proof fn repeated_means_twice_before(reps: Seq<u64>, key: u64, halfmove: u16)
    ensures
        is_repetition(reps, key, halfmove) <==> exists|i: int, j: int|
            reps.len() - halfmove <= i < j < reps.len() && 0 <= i && #[trigger] reps[i] == key
                && #[trigger] reps[j] == key,
{
    let start = if reps.len() >= halfmove {
        reps.len() - halfmove
    } else {
        0
    };
    occurs(reps, key, start, reps.len() as int);
    if is_repetition(reps, key, halfmove) {
        let (i, j) = choose|i: int, j: int|
            start <= i < j < reps.len() && #[trigger] reps[i] == key && #[trigger] reps[j] == key;
        assert(reps[i] == key && reps[j] == key);
    }
}

proof fn total_not_negative(squares: Squares, n: int)
    ensures
        piece_total(squares, n) >= 0,
    decreases n,
{
    if n > 0 {
        total_not_negative(squares, n - 1);
    }
}

/// Pieces on so many different squares are so many pieces.
proof fn at_least_four(squares: Squares, a: int, b: int, c: int, d: int)
    requires
        squares.len() == 64,
        0 <= a < 64,
        0 <= b < 64,
        0 <= c < 64,
        0 <= d < 64,
        a != b && a != c && a != d && b != c && b != d && c != d,
        squares[a] is Some && squares[b] is Some && squares[c] is Some,
    ensures
        piece_total(squares, 64) >= 3,
        squares[d] is Some ==> piece_total(squares, 64) >= 4,
{
    let s1 = squares.update(a, None);
    let s2 = s1.update(b, None);
    let s3 = s2.update(c, None);
    let s4 = s3.update(d, None);
    piece_total_update(squares, a, None, 64);
    piece_total_update(s1, b, None, 64);
    piece_total_update(s2, c, None, 64);
    piece_total_update(s3, d, None, 64);
    total_not_negative(s3, 64);
    total_not_negative(s4, 64);
}

proof fn kind_somewhere(squares: Squares, c: Color, pt: PieceType, n: int) -> (s: int)
    requires
        0 <= n,
        kind_total(squares, c, pt, n) >= 1,
    ensures
        0 <= s < n,
        squares[s] == Some((c, pt)),
    decreases n,
{
    if squares[n - 1] == Some((c, pt)) {
        n - 1
    } else {
        kind_somewhere(squares, c, pt, n - 1)
    }
}

proof fn other_square(a: int, b: int, c: int) -> (d: int)
    ensures
        0 <= d < 64,
        d != a && d != b && d != c,
{
    if a != 0 && b != 0 && c != 0 {
        0
    } else if a != 1 && b != 1 && c != 1 {
        1
    } else if a != 2 && b != 2 && c != 2 {
        2
    } else {
        3
    }
}

/// With a pawn, a rook or a queen on the board there is enough to mate.
pub proof fn heavy_piece_suffices(b: Board, s: int)
    requires
        board_wf(b),
        valid(s),
        ({
            let pt = piece_on(b.squares, s);
            pt == PieceType::Pawn || pt == PieceType::Rook || pt == PieceType::Queen
        }),
    ensures
        !insufficient_material(b),
{
    let (w, k) = (king_of(b, Color::White), king_of(b, Color::Black));
    assert(king_at_home(b, Color::White) && king_at_home(b, Color::Black));
    let d = other_square(w, k, s);
    at_least_four(b.squares, w, k, s, d);
    if insufficient_material(b) && piece_total(b.squares, 64) == 3 {
        let c = choose|c: Color|
            #[trigger] kind_total(b.squares, c, PieceType::Bishop, 64) == 1 || kind_total(
                b.squares,
                c,
                PieceType::Knight,
                64,
            ) == 1;
        let t = if kind_total(b.squares, c, PieceType::Bishop, 64) == 1 {
            kind_somewhere(b.squares, c, PieceType::Bishop, 64)
        } else {
            kind_somewhere(b.squares, c, PieceType::Knight, 64)
        };
        at_least_four(b.squares, w, k, s, t);
    }
}

/// With a knight and any other piece beside the kings there is enough to mate.
pub proof fn knight_and_more_suffices(b: Board, s: int, t: int)
    requires
        board_wf(b),
        valid(s),
        valid(t),
        s != t,
        piece_on(b.squares, s) == PieceType::Knight,
        piece_on(b.squares, t) != PieceType::NoPiece,
        piece_on(b.squares, t) != PieceType::King,
    ensures
        !insufficient_material(b),
{
    let (w, k) = (king_of(b, Color::White), king_of(b, Color::Black));
    assert(king_at_home(b, Color::White) && king_at_home(b, Color::Black));
    at_least_four(b.squares, w, k, s, t);
    assert(piece_on(b.squares, s) == PieceType::Knight);
}

/// Bishops on squares of both shades are enough to mate.
pub proof fn bishops_of_both_shades_suffice(b: Board, s: int, t: int)
    requires
        board_wf(b),
        valid(s),
        valid(t),
        piece_on(b.squares, s) == PieceType::Bishop,
        piece_on(b.squares, t) == PieceType::Bishop,
        (rank(s) + file(s)) % 2 == 0,
        (rank(t) + file(t)) % 2 == 1,
    ensures
        !insufficient_material(b),
{
    let (w, k) = (king_of(b, Color::White), king_of(b, Color::Black));
    assert(king_at_home(b, Color::White) && king_at_home(b, Color::Black));
    at_least_four(b.squares, w, k, s, t);
    assert(bishop_on_shade(b.squares, 0));
    assert(bishop_on_shade(b.squares, 1));
}

/// Bishops that all stand on squares of one shade, however many, cannot mate.
pub proof fn bishops_of_one_shade_are_not_enough(b: Board, shade: int, s: int, t: int)
    requires
        board_wf(b),
        shade == 0 || shade == 1,
        valid(s),
        valid(t),
        s != t,
        piece_on(b.squares, s) == PieceType::Bishop,
        piece_on(b.squares, t) == PieceType::Bishop,
        forall|u: int|
            valid(u) && (#[trigger] b.squares[u]) is Some ==> piece_on(b.squares, u)
                == PieceType::King || (piece_on(b.squares, u) == PieceType::Bishop && (rank(u)
                + file(u)) % 2 == shade),
    ensures
        insufficient_material(b),
{
    let (w, k) = (king_of(b, Color::White), king_of(b, Color::Black));
    assert(king_at_home(b, Color::White) && king_at_home(b, Color::Black));
    at_least_four(b.squares, w, k, s, t);
    assert(b.squares[s] is Some);
    assert(bishop_on_shade(b.squares, shade));
    if bishop_on_shade(b.squares, 1 - shade) {
        let u = choose|u: int|
            valid(u) && #[trigger] piece_on(b.squares, u) == PieceType::Bishop && (rank(u) + file(
                u,
            )) % 2 == 1 - shade;
        assert(b.squares[u] is Some);
    }
    assert forall|u: int| valid(u) implies #[trigger] piece_on(b.squares, u) == PieceType::Bishop
        || piece_on(b.squares, u) == PieceType::King || piece_on(b.squares, u)
        == PieceType::NoPiece by {
        if b.squares[u] is Some {
        }
    }
}

proof fn empty_total(squares: Squares, n: int)
    requires
        forall|t: int| 0 <= t < n ==> #[trigger] squares[t] is None,
    ensures
        piece_total(squares, n) == 0,
    decreases n,
{
    if n > 0 {
        empty_total(squares, n - 1);
    }
}

proof fn single_kind(squares: Squares, c: Color, pt: PieceType, s: int, n: int)
    requires
        0 <= s,
        squares[s] == Some((c, pt)),
        forall|t: int| 0 <= t < n && #[trigger] squares[t] == Some((c, pt)) ==> t == s,
    ensures
        kind_total(squares, c, pt, n) == if s < n {
            1int
        } else {
            0
        },
    decreases n,
{
    if n > 0 {
        single_kind(squares, c, pt, s, n - 1);
        assert(squares[n - 1] == Some((c, pt)) ==> n - 1 == s);
    }
}

proof fn kind_not_negative(squares: Squares, c: Color, pt: PieceType, n: int)
    ensures
        kind_total(squares, c, pt, n) >= 0,
    decreases n,
{
    if n > 0 {
        kind_not_negative(squares, c, pt, n - 1);
    }
}

/// Bare kings, or kings and one bishop or one knight, cannot mate.
pub proof fn kings_and_one_minor_are_not_enough(b: Board, s: int)
    requires
        board_wf(b),
        valid(s),
        forall|t: int|
            valid(t) && t != s ==> piece_on(b.squares, t) == PieceType::King || (
            #[trigger] b.squares[t]) is None,
        ({
            let pt = piece_on(b.squares, s);
            pt == PieceType::King || pt == PieceType::Bishop || pt == PieceType::Knight || b.squares[s]
                is None
        }),
    ensures
        insufficient_material(b),
{
    let (w, k) = (king_of(b, Color::White), king_of(b, Color::Black));
    assert(king_at_home(b, Color::White) && king_at_home(b, Color::Black));
    let s1 = b.squares.update(w, None);
    let s2 = s1.update(k, None);
    let s3 = s2.update(s, None);
    piece_total_update(b.squares, w, None, 64);
    piece_total_update(s1, k, None, 64);
    piece_total_update(s2, s, None, 64);
    assert forall|t: int| 0 <= t < 64 implies #[trigger] s3[t] is None by {
        assert(valid(t));
        let x = b.squares[t];
        if t != s && t != w && t != k && x is Some {
            assert(piece_on(b.squares, t) == PieceType::King);
            assert(t == king_of(b, (x->0).0));
        }
    }
    empty_total(s3, 64);
    let pt = piece_on(b.squares, s);
    assert(w != k);
    assert(piece_total(b.squares, 64) == 2 + if s2[s] is Some {
        1int
    } else {
        0
    });
    if b.squares[s] is Some && pt != PieceType::King {
        assert(s != w && s != k);
        let c = (b.squares[s]->0).0;
        assert forall|t: int| 0 <= t < 64 && #[trigger] b.squares[t] == Some((c, pt)) implies t
            == s by {
            assert(valid(t));
        }
        single_kind(b.squares, c, pt, s, 64);
        assert(kind_total(b.squares, c, PieceType::Bishop, 64) == 1 || kind_total(
            b.squares,
            c,
            PieceType::Knight,
            64,
        ) == 1);
        assert(s2[s] == b.squares[s]);
        assert(piece_total(b.squares, 64) == 3);
        if c == Color::White {
            assert(kind_total(b.squares, Color::White, PieceType::Bishop, 64) == 1 || kind_total(
                b.squares,
                Color::White,
                PieceType::Knight,
                64,
            ) == 1);
        } else {
            assert(c == Color::Black);
            assert(kind_total(b.squares, Color::Black, PieceType::Bishop, 64) == 1 || kind_total(
                b.squares,
                Color::Black,
                PieceType::Knight,
                64,
            ) == 1);
        }
        kind_not_negative(b.squares, Color::White, PieceType::Bishop, 64);
        kind_not_negative(b.squares, Color::Black, PieceType::Bishop, 64);
    } else {
        assert(valid(s));
        if b.squares[s] is Some {
            assert(s == king_of(b, (b.squares[s]->0).0));
            assert(s == w || s == k) by {
                let c = (b.squares[s]->0).0;
                if c == Color::White {
                    assert(s == w);
                } else {
                    assert(s == k);
                }
            }
        }
        assert(s2[s] is None);
        assert(piece_total(b.squares, 64) == 2);
    }
}

/// The game goes on while there are legal moves, a pawn, a rook or a queen on the
/// board, fewer than a hundred half-moves since the last capture or pawn move, and
/// the position has not occurred twice since. It is drawn at a hundred half-moves,
/// and by the second earlier occurrence.
pub proof fn draws_and_play(b: Board, reps: Seq<u64>, ply: i32, s: int)
    requires
        board_wf(b),
        valid(s),
        ({
            let pt = piece_on(b.squares, s);
            pt == PieceType::Pawn || pt == PieceType::Rook || pt == PieceType::Queen
        }),
    ensures
        b.halfmove >= 100 ==> final_score(b, reps, ply, true) == Some(0i32),
        is_repetition(reps, board_hash(b), b.halfmove) ==> final_score(b, reps, ply, true) == Some(
            0i32,
        ),
        b.halfmove < 100 && !(exists|i: int, j: int|
            reps.len() - b.halfmove <= i < j < reps.len() && 0 <= i && #[trigger] reps[i]
                == board_hash(b) && #[trigger] reps[j] == board_hash(b)) ==> final_score(
            b,
            reps,
            ply,
            true,
        ) is None,
{
    heavy_piece_suffices(b, s);
    repeated_means_twice_before(reps, board_hash(b), b.halfmove);
}

} // verus!
