//! What the pieces count in the classical evaluation.
use vstd::prelude::*;
use crate::arith::quotient;
use crate::context::Context;
use crate::eval::{
    BISHOP_EG, BISHOP_MG, KING_EG, KING_MG, KNIGHT_EG, KNIGHT_MG, PAWN_EG, PAWN_MG, PHASE_WEIGHT,
    QUEEN_EG, QUEEN_MG, ROOK_EG, ROOK_MG, classical_score, eight, static_score, total_phase,
    total_worth, worth,
};
use crate::geometry::{file, rank};
use crate::nnue::mirror::{flipped, flipped_sum, sum_below};
use crate::pieces::{Color, PieceType};
use crate::rules::{Board, Squares};

verus! {

/// The outermost squares of the board.
pub open spec fn rim(r: int, f: int) -> bool {
    r == 0 || r == 7 || f == 0 || f == 7
}

/// The four squares in the middle.
pub open spec fn centre(r: int, f: int) -> bool {
    3 <= r <= 4 && 3 <= f <= 4
}

proof fn pawn_mg_entries(r: int, f: int)
    requires
        0 <= r < 8,
        0 <= f < 8,
    ensures
        ({
            let e = PAWN_MG[r][f];
            -20 <= e <= 50
                && (r == 6 ==> e == 50)
                && (r == 0 || r == 7 ==> e == 0)
                && (1 <= r <= 5 ==> e <= 30)
        }),
{
    eight(r);
    eight(f);
}

proof fn pawn_eg_entries(r: int, f: int)
    requires
        0 <= r < 8,
        0 <= f < 8,
    ensures
        ({
            let e = PAWN_EG[r][f];
            0 <= e <= 85
                && (r == 0 || r == 7 ==> e == 0)
                && (r == 1 ==> e == 10)
                && (r == 2 ==> 15 <= e <= 20)
                && (r == 3 ==> 25 <= e <= 30)
                && (r == 4 ==> 40 <= e <= 45)
                && (r == 5 ==> 60 <= e <= 65)
                && (r == 6 ==> 80 <= e <= 85)
        }),
{
    eight(r);
    eight(f);
}

proof fn knight_mg_entries(r: int, f: int)
    requires
        0 <= r < 8,
        0 <= f < 8,
    ensures
        ({
            let e = KNIGHT_MG[r][f];
            -50 <= e <= 20
                && (rim(r, f) ==> e <= -30)
                && (!rim(r, f) ==> e >= -20)
                && (centre(r, f) ==> e == 20)
        }),
{
    eight(r);
    eight(f);
}

proof fn knight_eg_entries(r: int, f: int)
    requires
        0 <= r < 8,
        0 <= f < 8,
    ensures
        ({
            let e = KNIGHT_EG[r][f];
            -50 <= e <= 25
                && (rim(r, f) ==> e <= -30)
                && (!rim(r, f) ==> e >= -20)
                && (centre(r, f) ==> e == 25)
        }),
{
    eight(r);
    eight(f);
}

proof fn bishop_mg_entries(r: int, f: int)
    requires
        0 <= r < 8,
        0 <= f < 8,
    ensures
        ({
            let e = BISHOP_MG[r][f];
            -20 <= e <= 10
                && (rim(r, f) ==> e <= -10)
                && (!rim(r, f) ==> e >= 0)
                && (centre(r, f) ==> e == 10)
        }),
{
    eight(r);
    eight(f);
}

proof fn bishop_eg_entries(r: int, f: int)
    requires
        0 <= r < 8,
        0 <= f < 8,
    ensures
        ({
            let e = BISHOP_EG[r][f];
            -20 <= e <= 10
                && (rim(r, f) ==> e <= -10)
                && (!rim(r, f) ==> e >= 0)
                && (centre(r, f) ==> e == 10)
        }),
{
    eight(r);
    eight(f);
}

proof fn rook_mg_entries(r: int, f: int)
    requires
        0 <= r < 8,
        0 <= f < 8,
    ensures
        ({
            let e = ROOK_MG[r][f];
            -5 <= e <= 10
                && (r == 6 ==> e >= 5)
                && (r != 6 ==> e <= 5)
        }),
{
    eight(r);
    eight(f);
}

proof fn rook_eg_entries(r: int, f: int)
    requires
        0 <= r < 8,
        0 <= f < 8,
    ensures
        ({
            let e = ROOK_EG[r][f];
            0 <= e <= 5
                && (r == 6 ==> e == 5)
                && (r != 6 ==> e == 0)
        }),
{
    eight(r);
    eight(f);
}

proof fn queen_mg_entries(r: int, f: int)
    requires
        0 <= r < 8,
        0 <= f < 8,
    ensures
        ({
            let e = QUEEN_MG[r][f];
            -20 <= e <= 5
                && (rim(r, f) ==> e <= 0)
                && (!rim(r, f) ==> e >= 0)
                && (centre(r, f) ==> e == 5)
        }),
{
    eight(r);
    eight(f);
}

proof fn queen_eg_entries(r: int, f: int)
    requires
        0 <= r < 8,
        0 <= f < 8,
    ensures
        ({
            let e = QUEEN_EG[r][f];
            -20 <= e <= 5
                && (rim(r, f) ==> e <= -5)
                && (!rim(r, f) ==> e >= 0)
                && (centre(r, f) ==> e == 5)
        }),
{
    eight(r);
    eight(f);
}

proof fn king_mg_entries(r: int, f: int)
    requires
        0 <= r < 8,
        0 <= f < 8,
    ensures
        ({
            let e = KING_MG[r][f];
            -50 <= e <= 30
                && (r >= 6 ==> e >= 0)
                && (r <= 5 ==> e <= -10)
                && (r <= 3 ==> e <= -30)
        }),
{
    eight(r);
    eight(f);
}

proof fn king_eg_entries(r: int, f: int)
    requires
        0 <= r < 8,
        0 <= f < 8,
    ensures
        ({
            let e = KING_EG[r][f];
            -50 <= e <= 40
                && (rim(r, f) ==> e <= -20)
                && (!rim(r, f) ==> e >= -30)
                && (centre(r, f) ==> e == 40)
        }),
{
    eight(r);
    eight(f);
}

/// How many ranks a square lies ahead of a colour's own first rank.
pub open spec fn ranks_ahead(c: Color, s: int) -> int {
    if c == Color::White {
        rank(s)
    } else {
        7 - rank(s)
    }
}

/// The least and the most that a piece counts in the middlegame and in the
/// endgame, wherever it stands: a pawn 82 and 94, a knight 337 and 281, a bishop
/// 365 and 297, a rook 477 and 512, a queen 1025 and 936, a king nothing, and in
/// addition what its square gives or takes.
pub proof fn material_in_numbers(c: Color, pt: PieceType, s: int)
    requires
        0 <= s < 64,
    ensures
        ({
            let (mg, eg) = (worth(c, pt, s, false), worth(c, pt, s, true));
            &&& pt == PieceType::Pawn ==> 82 - 20 <= mg <= 82 + 50 && 94 <= eg <= 94 + 85
            &&& pt == PieceType::Knight ==> 337 - 50 <= mg <= 337 + 20 && 281 - 50 <= eg <= 281 + 25
            &&& pt == PieceType::Bishop ==> 365 - 20 <= mg <= 365 + 10 && 297 - 20 <= eg <= 297 + 10
            &&& pt == PieceType::Rook ==> 477 - 5 <= mg <= 477 + 10 && 512 <= eg <= 512 + 5
            &&& pt == PieceType::Queen ==> 1025 - 20 <= mg <= 1025 + 5 && 936 - 20 <= eg <= 936 + 5
            &&& pt == PieceType::King ==> -50 <= mg <= 30 && -50 <= eg <= 40
        }),
{
    let (r, f) = (7 - ranks_ahead(c, s), file(s));
    pawn_mg_entries(r, f);
    pawn_eg_entries(r, f);
    knight_mg_entries(r, f);
    knight_eg_entries(r, f);
    bishop_mg_entries(r, f);
    bishop_eg_entries(r, f);
    rook_mg_entries(r, f);
    rook_eg_entries(r, f);
    queen_mg_entries(r, f);
    queen_eg_entries(r, f);
    king_mg_entries(r, f);
    king_eg_entries(r, f);
}

/// Where pieces count more: knights, bishops and queens away from the rim and
/// most in the middle; the king on its own first two ranks in the middlegame, and
/// in the middle of the board in the endgame; rooks and pawns on their second
/// rank, pawns in the endgame less with every rank ahead.
pub proof fn places_in_numbers(c: Color, s: int)
    requires
        0 <= s < 64,
    ensures
        ({
            let (r, f, a) = (rank(s), file(s), ranks_ahead(c, s));
            let mg = |pt: PieceType| worth(c, pt, s, false);
            let eg = |pt: PieceType| worth(c, pt, s, true);
            &&& rim(r, f) ==> mg(PieceType::Knight) <= 307 && eg(PieceType::Knight) <= 251
            &&& !rim(r, f) ==> mg(PieceType::Knight) >= 317 && eg(PieceType::Knight) >= 261
            &&& centre(r, f) ==> mg(PieceType::Knight) == 357 && eg(PieceType::Knight) == 306
            &&& rim(r, f) ==> mg(PieceType::Bishop) <= 355 && eg(PieceType::Bishop) <= 287
            &&& !rim(r, f) ==> mg(PieceType::Bishop) >= 365 && eg(PieceType::Bishop) >= 297
            &&& centre(r, f) ==> mg(PieceType::Bishop) == 375 && eg(PieceType::Bishop) == 307
            &&& rim(r, f) ==> mg(PieceType::Queen) <= 1025 && eg(PieceType::Queen) <= 931
            &&& !rim(r, f) ==> mg(PieceType::Queen) >= 1025 && eg(PieceType::Queen) >= 936
            &&& centre(r, f) ==> mg(PieceType::Queen) == 1030 && eg(PieceType::Queen) == 941
            &&& a <= 1 ==> mg(PieceType::King) >= 0
            &&& a >= 2 ==> mg(PieceType::King) <= -10
            &&& a >= 4 ==> mg(PieceType::King) <= -30
            &&& rim(r, f) ==> eg(PieceType::King) <= -20
            &&& centre(r, f) ==> eg(PieceType::King) == 40
            &&& a == 1 ==> mg(PieceType::Rook) >= 482 && eg(PieceType::Rook) == 517
            &&& a != 1 ==> mg(PieceType::Rook) <= 482 && eg(PieceType::Rook) == 512
            &&& a == 1 ==> mg(PieceType::Pawn) == 132 && eg(PieceType::Pawn) >= 174
            &&& 2 <= a <= 6 ==> mg(PieceType::Pawn) <= 112
            &&& a == 2 ==> 154 <= eg(PieceType::Pawn) <= 159
            &&& a == 3 ==> 134 <= eg(PieceType::Pawn) <= 139
            &&& a == 4 ==> 119 <= eg(PieceType::Pawn) <= 124
            &&& a == 5 ==> 109 <= eg(PieceType::Pawn) <= 114
            &&& a == 6 ==> eg(PieceType::Pawn) == 104
        }),
{
    let (r, f) = (7 - ranks_ahead(c, s), file(s));
    assert(rim(r, f) <==> rim(rank(s), f));
    assert(centre(r, f) <==> centre(rank(s), f));
    pawn_mg_entries(r, f);
    pawn_eg_entries(r, f);
    knight_mg_entries(r, f);
    knight_eg_entries(r, f);
    bishop_mg_entries(r, f);
    bishop_eg_entries(r, f);
    rook_mg_entries(r, f);
    rook_eg_entries(r, f);
    queen_mg_entries(r, f);
    queen_eg_entries(r, f);
    king_mg_entries(r, f);
    king_eg_entries(r, f);
}

proof fn others_unchanged(
    squares: Squares,
    s: int,
    c: Color,
    pt: PieceType,
    d: Color,
    endgame: bool,
    n: int,
)
    requires
        0 <= s < 64,
        0 <= n <= 64,
        squares.len() == 64,
        squares[s] is None,
        pt != PieceType::NoPiece,
    ensures
        ({
            let more = squares.update(s, Some((c, pt)));
            &&& total_worth(more, d, endgame, n) == total_worth(squares, d, endgame, n) + if d == c
                && s < n {
                worth(c, pt, s, endgame)
            } else {
                0
            }
            &&& total_phase(more, n) == total_phase(squares, n) + if s < n {
                PHASE_WEIGHT[pt.index()] as int
            } else {
                0
            }
        }),
    decreases n,
{
    if n > 0 {
        others_unchanged(squares, s, c, pt, d, endgame, n - 1);
    }
}

/// Every piece counts: one that is put on an empty square raises its colour's
/// total by what it is worth there, leaves the other colour's total alone, and
/// counts towards the middlegame, a knight or bishop one, a rook two, a queen
/// four.
pub proof fn piece_counts(squares: Squares, s: int, c: Color, pt: PieceType, endgame: bool)
    requires
        0 <= s < 64,
        squares.len() == 64,
        squares[s] is None,
        pt != PieceType::NoPiece,
    ensures
        ({
            let more = squares.update(s, Some((c, pt)));
            &&& total_worth(more, c, endgame, 64) == total_worth(squares, c, endgame, 64) + worth(
                c,
                pt,
                s,
                endgame,
            )
            &&& total_worth(more, c.other(), endgame, 64) == total_worth(
                squares,
                c.other(),
                endgame,
                64,
            )
            &&& total_phase(more, 64) == total_phase(squares, 64) + match pt {
                PieceType::Knight => 1int,
                PieceType::Bishop => 1,
                PieceType::Rook => 2,
                PieceType::Queen => 4,
                _ => 0,
            }
        }),
{
    others_unchanged(squares, s, c, pt, c, endgame, 64);
    others_unchanged(squares, s, c, pt, c.other(), endgame, 64);
}

proof fn blend_between(mg: int, eg: int, phase: int, lo: int, hi: int)
    requires
        0 < lo <= mg <= hi,
        lo <= eg <= hi,
        0 <= phase <= 24,
    ensures
        lo <= quotient(mg * phase + eg * (24 - phase), 24) <= hi,
        quotient((-mg) * phase + (-eg) * (24 - phase), 24) == -quotient(
            mg * phase + eg * (24 - phase),
            24,
        ),
{
    let t = mg * phase + eg * (24 - phase);
    assert(24 * lo <= t <= 24 * hi) by (nonlinear_arith)
        requires
            lo <= mg <= hi,
            lo <= eg <= hi,
            0 <= phase <= 24,
            t == mg * phase + eg * (24 - phase),
    ;
    assert((-mg) * phase + (-eg) * (24 - phase) == -t) by (nonlinear_arith)
        requires
            t == mg * phase + eg * (24 - phase),
    ;
}

/// The two sides have the same on the board, in the middlegame and in the
/// endgame.
pub open spec fn level(squares: Squares) -> bool {
    &&& total_worth(squares, Color::White, false, 64) == total_worth(
        squares,
        Color::Black,
        false,
        64,
    )
    &&& total_worth(squares, Color::White, true, 64) == total_worth(
        squares,
        Color::Black,
        true,
        64,
    )
}

/// A side that has one piece more on a board that is level without it is ahead:
/// by 62 to 179 for a pawn, 231 to 357 for a knight, 277 to 375 for a bishop, 472
/// to 517 for a rook, 916 to 1030 for a queen. Seen from the other side it is as
/// far behind.
pub proof fn piece_up_is_ahead(b: Board, s: int, pt: PieceType)
    requires
        0 <= s < 64,
        b.squares.len() == 64,
        b.squares[s] is None,
        level(b.squares),
    ensures
        ({
            let up = classical_score(
                Board { squares: b.squares.update(s, Some((b.side, pt))), ..b },
            );
            let down = classical_score(
                Board { squares: b.squares.update(s, Some((b.side.other(), pt))), ..b },
            );
            &&& pt == PieceType::Pawn ==> 62 <= up <= 179 && -179 <= down <= -62
            &&& pt == PieceType::Knight ==> 231 <= up <= 357 && -357 <= down <= -231
            &&& pt == PieceType::Bishop ==> 277 <= up <= 375 && -375 <= down <= -277
            &&& pt == PieceType::Rook ==> 472 <= up <= 517 && -517 <= down <= -472
            &&& pt == PieceType::Queen ==> 916 <= up <= 1030 && -1030 <= down <= -916
        }),
{
    if pt != PieceType::NoPiece && pt != PieceType::King {
        one_up(b, s, b.side, pt);
        one_up(b, s, b.side.other(), pt);
    }
}

proof fn one_up(b: Board, s: int, c: Color, pt: PieceType)
    requires
        0 <= s < 64,
        b.squares.len() == 64,
        b.squares[s] is None,
        level(b.squares),
        pt != PieceType::NoPiece,
        pt != PieceType::King,
    ensures
        ({
            let x = classical_score(Board { squares: b.squares.update(s, Some((c, pt))), ..b });
            let up = if c == b.side {
                x
            } else {
                -x
            };
            &&& pt == PieceType::Pawn ==> 62 <= up <= 179
            &&& pt == PieceType::Knight ==> 231 <= up <= 357
            &&& pt == PieceType::Bishop ==> 277 <= up <= 375
            &&& pt == PieceType::Rook ==> 472 <= up <= 517
            &&& pt == PieceType::Queen ==> 916 <= up <= 1030
        }),
{
    let more = b.squares.update(s, Some((c, pt)));
    piece_counts(b.squares, s, c, pt, false);
    piece_counts(b.squares, s, c, pt, true);
    material_in_numbers(c, pt, s);
    phase_not_negative(more, 64);
    let (mg, eg) = (worth(c, pt, s, false), worth(c, pt, s, true));
    let phase = if total_phase(more, 64) < 24 {
        total_phase(more, 64)
    } else {
        24
    };
    let (lo, hi) = match pt {
        PieceType::Pawn => (62int, 179int),
        PieceType::Knight => (231, 357),
        PieceType::Bishop => (277, 375),
        PieceType::Rook => (472, 517),
        _ => (916, 1030),
    };
    blend_between(mg, eg, phase, lo, hi);
}

proof fn phase_not_negative(squares: Squares, n: int)
    requires
        0 <= n <= 64,
    ensures
        total_phase(squares, n) >= 0,
    decreases n,
{
    if n > 0 {
        phase_not_negative(squares, n - 1);
        if let Some((_, pt)) = squares[n - 1] {
            assert(pt != PieceType::NoPiece ==> PHASE_WEIGHT[pt.index()] >= 0);
        }
    }
}

/// With nothing but pawns and kings the endgame counts alone, with 24 or more
/// points of pieces the middlegame alone, and in between the score lies between
/// the two.
pub proof fn phases_blend(b: Board)
    ensures
        ({
            let (us, them) = (b.side, b.side.other());
            let mg = total_worth(b.squares, us, false, 64) - total_worth(
                b.squares,
                them,
                false,
                64,
            );
            let eg = total_worth(b.squares, us, true, 64) - total_worth(b.squares, them, true, 64);
            let (low, high) = if mg < eg {
                (mg, eg)
            } else {
                (eg, mg)
            };
            let score = classical_score(b);
            &&& total_phase(b.squares, 64) == 0 ==> score == eg
            &&& total_phase(b.squares, 64) >= 24 ==> score == mg
            &&& 0 <= total_phase(b.squares, 64) <= 24 ==> -24 < 24 * score - (mg * total_phase(
                b.squares,
                64,
            ) + eg * (24 - total_phase(b.squares, 64))) < 24
            &&& low <= score <= high
        }),
{
    phase_not_negative(b.squares, 64);
    let (us, them) = (b.side, b.side.other());
    let mg = total_worth(b.squares, us, false, 64) - total_worth(b.squares, them, false, 64);
    let eg = total_worth(b.squares, us, true, 64) - total_worth(b.squares, them, true, 64);
    let (low, high) = if mg < eg {
        (mg, eg)
    } else {
        (eg, mg)
    };
    let phase = if total_phase(b.squares, 64) < 24 {
        total_phase(b.squares, 64)
    } else {
        24
    };
    let t = mg * phase + eg * (24 - phase);
    assert(24 * low <= t <= 24 * high) by (nonlinear_arith)
        requires
            low <= mg <= high,
            low <= eg <= high,
            0 <= phase <= 24,
            t == mg * phase + eg * (24 - phase),
    ;
    if phase == 0 {
        assert(mg * 0 == 0);
        assert(t == eg * 24);
    }
    if phase == 24 {
        assert(eg * 0 == 0);
        assert(t == mg * 24);
    }
    assert(classical_score(b) == quotient(t, 24));
    assert(-24 < 24 * quotient(t, 24) - t < 24);
}

/// The board turned over, with the colours exchanged.
pub open spec fn turned_over(b: Board, c: Board) -> bool {
    &&& c.side == b.side.other()
    &&& forall|s: int|
        0 <= s < 64 ==> c.squares[flipped(s)] == match #[trigger] b.squares[s] {
            Some((color, pt)) => Some((color.other(), pt)),
            None => None,
        }
}

spec fn worth_at(squares: Squares, c: Color, endgame: bool) -> spec_fn(int) -> int {
    |s: int|
        match squares[s] {
            Some((d, pt)) => if d == c && pt != PieceType::NoPiece {
                worth(c, pt, s, endgame)
            } else {
                0
            },
            None => 0,
        }
}

spec fn phase_at(squares: Squares) -> spec_fn(int) -> int {
    |s: int|
        match squares[s] {
            Some((_, pt)) => if pt != PieceType::NoPiece {
                PHASE_WEIGHT[pt.index()] as int
            } else {
                0
            },
            None => 0,
        }
}

proof fn worth_by_square(squares: Squares, c: Color, endgame: bool, n: int)
    requires
        0 <= n <= 64,
    ensures
        total_worth(squares, c, endgame, n) == sum_below(worth_at(squares, c, endgame), n),
        total_phase(squares, n) == sum_below(phase_at(squares), n),
    decreases n,
{
    if n > 0 {
        worth_by_square(squares, c, endgame, n - 1);
    }
}

proof fn turned_worth(b: Board, t: Board, c: Color, endgame: bool)
    requires
        turned_over(b, t),
    ensures
        total_worth(b.squares, c, endgame, 64) == total_worth(t.squares, c.other(), endgame, 64),
        total_phase(b.squares, 64) == total_phase(t.squares, 64),
{
    worth_by_square(b.squares, c, endgame, 64);
    worth_by_square(t.squares, c.other(), endgame, 64);
    let h = worth_at(b.squares, c, endgame);
    let g = worth_at(t.squares, c.other(), endgame);
    assert forall|s: int| 0 <= s < 64 implies #[trigger] h(s) == g(flipped(s)) by {
        let x = b.squares[s];
        assert(rank(flipped(s)) == 7 - rank(s) && file(flipped(s)) == file(s));
    }
    flipped_sum(h, g);
    let p = phase_at(b.squares);
    let q = phase_at(t.squares);
    assert forall|s: int| 0 <= s < 64 implies #[trigger] p(s) == q(flipped(s)) by {
        let x = b.squares[s];
    }
    flipped_sum(p, q);
}

/// The colours are treated alike: the score for the side to move stays the same
/// when the board is turned over and the colours are exchanged.
pub proof fn colours_alike(b: Board, t: Board)
    requires
        turned_over(b, t),
    ensures
        classical_score(t) == classical_score(b),
{
    turned_worth(b, t, Color::White, false);
    turned_worth(b, t, Color::White, true);
    turned_worth(b, t, Color::Black, false);
    turned_worth(b, t, Color::Black, true);
}

/// Left and right are alike: a piece counts as much on a square as on the one
/// across the middle of the board, but for the queen in the middlegame.
pub proof fn left_and_right_alike(c: Color, pt: PieceType, s: int, endgame: bool)
    requires
        0 <= s < 64,
        pt != PieceType::Queen || endgame,
    ensures
        worth(c, pt, s, endgame) == worth(c, pt, 8 * rank(s) + 7 - file(s), endgame),
{
    let t = 8 * rank(s) + 7 - file(s);
    assert(rank(t) == rank(s) && file(t) == 7 - file(s));
    let (r, f) = (7 - ranks_ahead(c, s), file(s));
    eight(r);
    eight(f);
}

/// In the corners knights count 50 less than their material, bishops and queens
/// 20, and kings 50 in the endgame; a king that stands where castling puts it, or
/// next to the other corner, gains 30 in the middlegame.
pub proof fn corners_in_numbers(c: Color, s: int)
    requires
        0 <= s < 64,
    ensures
        ({
            let (r, f, a) = (rank(s), file(s), ranks_ahead(c, s));
            &&& (r == 0 || r == 7) && (f == 0 || f == 7) ==> {
                &&& worth(c, PieceType::Knight, s, false) == 287
                &&& worth(c, PieceType::Knight, s, true) == 231
                &&& worth(c, PieceType::Bishop, s, false) == 345
                &&& worth(c, PieceType::Bishop, s, true) == 277
                &&& worth(c, PieceType::Queen, s, false) == 1005
                &&& worth(c, PieceType::Queen, s, true) == 916
                &&& worth(c, PieceType::King, s, true) == -50
            }
            &&& a == 0 && (f == 1 || f == 6) ==> worth(c, PieceType::King, s, false) == 30
            &&& a == 0 && (f == 3 || f == 4) ==> worth(c, PieceType::King, s, false) == 0
        }),
{
    let (r, f) = (7 - ranks_ahead(c, s), file(s));
    eight(r);
    eight(f);
}

/// Without a network a position is scored by its material and the places of the
/// pieces, and by nothing else.
pub proof fn no_network_means_material(ctx: Context, b: Board)
    requires
        ctx.nnue is None,
    ensures
        static_score(ctx, b) == classical_score(b),
{
}

} // verus!
