//! King safety: which moves leave the king out of check.
//!
//! A move of another piece is safe exactly if its destination answers every
//! check, by capture or interposition, and if it does not leave the line on
//! which the piece is pinned. This module proves that, and that no piece but
//! the king can answer two checks at once.
use vstd::prelude::*;
use crate::geometry::{
    between, between_dir, bishop_reaches, bishop_symmetric, is_bishop_dir, is_rook_dir,
    king_reaches, knight_reaches, on_ray, pawn_reaches, ray_total, ray_trans, ray_unique,
    ray_valid, rook_reaches, rook_symmetric, slides, valid,
};
use crate::pieces::{Color, PieceType};
use crate::rules::{
    Board, Squares, attacked, attacks_from, board_wf, king_of, occupied, piece_reaches,
};

verus! {

/// A piece of this type moves along lines of direction `d`.
pub open spec fn line_piece(pt: PieceType, d: int) -> bool {
    match pt {
        PieceType::Rook => is_rook_dir(d),
        PieceType::Bishop => is_bishop_dir(d),
        PieceType::Queen => 0 <= d < 8,
        _ => false,
    }
}

pub open spec fn slider(pt: PieceType) -> bool {
    pt == PieceType::Rook || pt == PieceType::Bishop || pt == PieceType::Queen
}

/// A piece that does not slide attacks `t` from `s`.
pub open spec fn leaps(pt: PieceType, c: Color, s: int, t: int) -> bool {
    match pt {
        PieceType::Pawn => pawn_reaches(c == Color::White, s, t),
        PieceType::Knight => knight_reaches(s, t),
        PieceType::King => king_reaches(s, t),
        _ => false,
    }
}

/// The piece `pt` on `s` attacks `t` along a line that leaves `t` in direction
/// `d`.
pub open spec fn aims(pt: PieceType, d: int, s: int, t: int, occ: Seq<bool>) -> bool {
    line_piece(pt, d) && slides(d, t, s, occ)
}

/// Attacks are leaps or lines, and lines may be looked at from their far end.
pub proof fn attack_forms(pt: PieceType, c: Color, s: int, t: int, occ: Seq<bool>)
    ensures
        piece_reaches(pt, c, s, t, occ) <==> leaps(pt, c, s, t) || exists|d: int|
            #[trigger] aims(pt, d, s, t, occ),
{
    rook_symmetric(s, t, occ);
    bishop_symmetric(s, t, occ);
    if exists|d: int| #[trigger] aims(pt, d, s, t, occ) {
        let d = choose|d: int| #[trigger] aims(pt, d, s, t, occ);
        assert(0 <= d < 8);
        assert(d == 0 || d == 1 || d == 2 || d == 3 || d == 4 || d == 5 || d == 6 || d == 7);
    }
    if rook_reaches(t, s, occ) && (pt == PieceType::Rook || pt == PieceType::Queen) {
        if slides(0, t, s, occ) {
            assert(aims(pt, 0, s, t, occ));
        } else if slides(1, t, s, occ) {
            assert(aims(pt, 1, s, t, occ));
        } else if slides(2, t, s, occ) {
            assert(aims(pt, 2, s, t, occ));
        } else {
            assert(aims(pt, 3, s, t, occ));
        }
    }
    if bishop_reaches(t, s, occ) && (pt == PieceType::Bishop || pt == PieceType::Queen) {
        if slides(4, t, s, occ) {
            assert(aims(pt, 4, s, t, occ));
        } else if slides(5, t, s, occ) {
            assert(aims(pt, 5, s, t, occ));
        } else if slides(6, t, s, occ) {
            assert(aims(pt, 6, s, t, occ));
        } else {
            assert(aims(pt, 7, s, t, occ));
        }
    }
}

/// The type of the piece on a square.
pub open spec fn piece_on(squares: Squares, s: int) -> PieceType {
    match squares[s] {
        Some((_, pt)) => pt,
        None => PieceType::NoPiece,
    }
}

/// The king of the side to move.
pub open spec fn our_king(b: Board) -> int {
    king_of(b, b.side)
}

/// The piece on `s` gives check to the side to move.
pub open spec fn checker(b: Board, s: int) -> bool {
    attacks_from(b.squares, b.side.other(), s, our_king(b), occupied(b.squares))
}

/// The piece on `s` is a slider.
pub open spec fn slider_at(b: Board, s: int) -> bool {
    b.squares[s] matches Some((_, pt)) && slider(pt)
}

/// A piece that arrives on `to` captures the checker on `s` or stands in its
/// way.
pub open spec fn answers(b: Board, s: int, to: int) -> bool {
    s == to || (slider_at(b, s) && between(our_king(b), s, to))
}

/// A piece that arrives on `to` answers every check.
pub open spec fn evades(b: Board, to: int) -> bool {
    forall|s: int| #[trigger] checker(b, s) ==> answers(b, s, to)
}

/// The enemy slider on `s` would give check along `d` if the piece on `from`
/// were not there.
pub open spec fn pins_along(b: Board, d: int, from: int, s: int) -> bool {
    let k = our_king(b);
    &&& on_ray(d, k, from)
    &&& on_ray(d, from, s)
    &&& b.squares[s] matches Some((c, pt))
    &&& c == b.side.other()
    &&& line_piece(pt, d)
    &&& forall|u: int|
        #[trigger] on_ray(d, k, u) && on_ray(d, u, s) && u != from ==> b.squares[u] is None
}

/// A piece that moves from `from` to `to` stays on its pin line.
pub open spec fn keeps_pin(b: Board, from: int, to: int) -> bool {
    forall|d: int, s: int| #[trigger] pins_along(b, d, from, s) ==> to == s || (on_ray(d, our_king(b), to)
        && on_ray(d, to, s))
}

/// The side to move has a piece other than the king on `from` and moves it to
/// `to`, which holds no own piece; the other squares stay as they are.
pub open spec fn plain_step(b: Board, after: Squares, from: int, to: int) -> bool {
    &&& valid(from)
    &&& valid(to)
    &&& from != to
    &&& from != our_king(b)
    &&& b.squares[from] matches Some((c, _))
    &&& c == b.side
    &&& !(b.squares[to] matches Some((e, _)) && e == b.side)
    &&& after.len() == 64
    &&& after[from] is None
    &&& after[to] matches Some((e, _))
    &&& e == b.side
    &&& forall|s: int| valid(s) && s != from && s != to ==> #[trigger] after[s] == b.squares[s]
}

/// The king of the side to move is attacked once the squares are `after`.
pub open spec fn exposed(b: Board, after: Squares) -> bool {
    attacked(after, b.side.other(), our_king(b), occupied(after))
}

/// If every check is answered and the pin line kept, the king is safe.
pub proof fn answered_is_safe(b: Board, after: Squares, from: int, to: int)
    requires
        board_wf(b),
        plain_step(b, after, from, to),
        evades(b, to),
        keeps_pin(b, from, to),
    ensures
        !exposed(b, after),
{
    let them = b.side.other();
    let k = our_king(b);
    let occ = occupied(b.squares);
    let occ2 = occupied(after);
    if exposed(b, after) {
        let s = choose|s: int| #[trigger] attacks_from(after, them, s, k, occ2);
        let pt = piece_on(after, s);
        assert(s != from && s != to);
        assert(b.squares[s] == after[s]);
        attack_forms(pt, them, s, k, occ2);
        attack_forms(pt, them, s, k, occ);
        if leaps(pt, them, s, k) {
            assert(checker(b, s));
            assert(answers(b, s, to));
            assert(!slider(pt));
        } else {
            let d = choose|d: int| #[trigger] aims(pt, d, s, k, occ2);
            if slides(d, k, s, occ) {
                assert(aims(pt, d, s, k, occ));
                assert(checker(b, s));
                assert(answers(b, s, to));
                between_dir(d, k, s, to);
                assert(on_ray(d, k, to) && on_ray(d, to, s));
                assert(occ2[to]);
            } else {
                let u = choose|u: int| #[trigger] on_ray(d, k, u) && on_ray(d, u, s) && occ[u];
                ray_valid(d, k, u);
                assert(!occ2[u]);
                assert(u == from);
                assert forall|v: int|
                    #[trigger] on_ray(d, k, v) && on_ray(d, v, s) && v != from implies b.squares[v] is None by {
                    ray_valid(d, k, v);
                    assert(!occ2[v]);
                }
                assert(pins_along(b, d, from, s));
                assert(on_ray(d, k, to) && on_ray(d, to, s));
                assert(occ2[to]);
            }
        }
    }
}

/// A check that stands before the move and is not answered stands after it.
proof fn unanswered_check(b: Board, after: Squares, from: int, to: int, s: int)
    requires
        board_wf(b),
        plain_step(b, after, from, to),
        checker(b, s),
        !answers(b, s, to),
    ensures
        exposed(b, after),
{
    let them = b.side.other();
    let k = our_king(b);
    let occ = occupied(b.squares);
    let occ2 = occupied(after);
    let pt = piece_on(b.squares, s);
    assert(s != from && s != to);
    attack_forms(pt, them, s, k, occ2);
    attack_forms(pt, them, s, k, occ);
    if !leaps(pt, them, s, k) {
        let d = choose|d: int| #[trigger] aims(pt, d, s, k, occ);
        between_dir(d, k, s, to);
        assert forall|u: int| #[trigger] on_ray(d, k, u) && on_ray(d, u, s) implies !occ2[u] by {
            ray_valid(d, k, u);
            assert(!occ[u]);
        }
        assert(aims(pt, d, s, k, occ2));
    }
    assert(attacks_from(after, them, s, k, occ2));
}

/// A pinned piece that leaves its line exposes the king.
proof fn broken_pin(b: Board, after: Squares, from: int, to: int, d: int, s: int)
    requires
        board_wf(b),
        plain_step(b, after, from, to),
        pins_along(b, d, from, s),
        to != s,
        !(on_ray(d, our_king(b), to) && on_ray(d, to, s)),
    ensures
        exposed(b, after),
{
    let them = b.side.other();
    let k = our_king(b);
    let occ2 = occupied(after);
    let pt = piece_on(b.squares, s);
    ray_trans(d, k, from, s);
    ray_valid(d, from, s);
    attack_forms(pt, them, s, k, occ2);
    assert forall|u: int| #[trigger] on_ray(d, k, u) && on_ray(d, u, s) implies !occ2[u] by {
        ray_valid(d, k, u);
        if u != from {
            assert(b.squares[u] is None);
        }
    }
    assert(aims(pt, d, s, k, occ2));
    assert(attacks_from(after, them, s, k, occ2));
}

/// A safe move answers every check and keeps the pin line.
pub proof fn safe_is_answered(b: Board, after: Squares, from: int, to: int)
    requires
        board_wf(b),
        plain_step(b, after, from, to),
        !exposed(b, after),
    ensures
        evades(b, to),
        keeps_pin(b, from, to),
{
    assert forall|s: int| #[trigger] checker(b, s) implies answers(b, s, to) by {
        if !answers(b, s, to) {
            unanswered_check(b, after, from, to, s);
        }
    }
    assert forall|d: int, s: int| #[trigger] pins_along(b, d, from, s) implies to == s || (on_ray(
        d,
        our_king(b),
        to,
    ) && on_ray(d, to, s)) by {
        if !(to == s || (on_ray(d, our_king(b), to) && on_ray(d, to, s))) {
            broken_pin(b, after, from, to, d, s);
        }
    }
}

/// The line of a checking slider.
pub proof fn check_line(b: Board, s: int) -> (d: int)
    requires
        board_wf(b),
        checker(b, s),
        slider_at(b, s),
    ensures
        slides(d, our_king(b), s, occupied(b.squares)),
{
    let occ = occupied(b.squares);
    let pt = piece_on(b.squares, s);
    attack_forms(pt, b.side.other(), s, our_king(b), occ);
    choose|d: int| #[trigger] aims(pt, d, s, our_king(b), occ)
}

/// No single square answers two checks.
pub proof fn double_check(b: Board, s: int, t: int, to: int)
    requires
        board_wf(b),
        checker(b, s),
        checker(b, t),
        s != t,
    ensures
        !(answers(b, s, to) && answers(b, t, to)),
{
    let k = our_king(b);
    let occ = occupied(b.squares);
    if answers(b, s, to) && answers(b, t, to) {
        if s == to {
            let e = check_line(b, t);
            between_dir(e, k, t, to);
            assert(!occ[to]);
        } else if t == to {
            let d = check_line(b, s);
            between_dir(d, k, s, to);
            assert(!occ[to]);
        } else {
            let d = check_line(b, s);
            let e = check_line(b, t);
            between_dir(d, k, s, to);
            between_dir(e, k, t, to);
            ray_unique(d, e, k, to);
            ray_total(d, k, s, t);
            if on_ray(d, s, t) {
                assert(!occ[s]);
            } else {
                assert(!occ[t]);
            }
        }
    }
}

} // verus!
