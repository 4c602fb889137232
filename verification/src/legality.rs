//! What moves keep: lemmas about the rules.
use vstd::prelude::*;
use crate::geometry::{between_dir, file, on_ray, pawn_reaches, rank, ray_valid, valid};
use crate::moves::{MoveFlag, MoveParts};
use crate::pieces::{Color, PieceType};
use crate::rules::{
    Board, after, after_null, agrees, at, attacked, attacks_from, before, board_wf, castles,
    ep_victim, fits, home_rank, in_check, is_castle, king_at_home, king_of, king_safe, legal_parts,
    occupied, piece_reaches, playable, pseudo_legal, rights_after, safe_square, squares_after,
};
use crate::safety::{
    aims, answered_is_safe, answers, attack_forms, check_line, checker, double_check, evades,
    exposed, keeps_pin, leaps, our_king, piece_on, plain_step, safe_is_answered,
};

verus! {

/// A move that fits leads from a board that makes sense to one that does.
pub proof fn after_wf(b: Board, p: MoveParts)
    requires
        board_wf(b),
        fits(b, p),
    ensures
        board_wf(after(b, p)),
{
    let c = after(b, p);
    let us = b.side;
    let them = us.other();
    rights_shrink(b.castling, p.from, p.to, p.piece, us);
    assert(king_at_home(b, Color::White) && king_at_home(b, Color::Black));
    assert(king_at_home(b, us) && king_at_home(b, them));
    assert(p.flag.promotes() ==> p.flag.promotes_to() != PieceType::King && p.flag.promotes_to()
        != PieceType::NoPiece);
    assert(p.piece == PieceType::King ==> p.from == king_of(b, us));
    assert(king_of(b, them) != p.to && king_of(b, them) != p.from);
    assert(king_at_home(c, us));
    assert(king_at_home(c, them));
    assert forall|s: int| valid(s) implies (#[trigger] c.squares[s] matches Some((d, pt))
        ==> pt != PieceType::NoPiece && (pt == PieceType::King ==> s == king_of(c, d))) by {
        let x = b.squares[s];
    }
}

/// Rights are only ever lost.
pub proof fn rights_shrink(rights: u8, from: int, to: int, piece: PieceType, us: Color)
    ensures
        rights < 16 ==> rights_after(rights, from, to, piece, us) < 16,
{
    assert forall|r: u8, m: u8| r < 16 implies #[trigger] (r & m) < 16 by {
        assert(r < 16 ==> r & m < 16) by (bit_vector);
    }
}

/// Taking a move back gives the board it was made on.
pub proof fn before_after(b: Board, p: MoveParts)
    requires
        board_wf(b),
        fits(b, p),
    ensures
        before(after(b, p), p, b.castling, b.ep, b.halfmove) == b,
{
    let c = before(after(b, p), p, b.castling, b.ep, b.halfmove);
    assert(king_at_home(b, b.side));
    assert(c.squares =~= b.squares);
    assert(c.kings =~= b.kings);
}

/// On a playable board nothing attacks the king of the side that just moved,
/// so no move captures it.
proof fn no_king_capture(b: Board, s: int, t: int)
    requires
        playable(b),
        attacks_from(b.squares, b.side, s, t, occupied(b.squares)),
    ensures
        b.squares[t] != Some((b.side.other(), PieceType::King)),
{
    if b.squares[t] == Some((b.side.other(), PieceType::King)) {
        assert(valid(t)) by {
            let pt = piece_on(b.squares, s);
            attack_forms(pt, b.side, s, t, occupied(b.squares));
            if !leaps(pt, b.side, s, t) {
                let d = choose|d: int| #[trigger] aims(pt, d, s, t, occupied(b.squares));
                ray_valid(d, t, s);
            }
        }
        assert(t == king_of(b, b.side.other()));
        assert(in_check(b, b.side.other()));
    }
}

/// A slider or knight that moves as it attacks attacks its destination.
proof fn move_attacks(b: Board, p: MoveParts)
    requires
        pseudo_legal(b, p),
        p.flag.captures(),
        p.flag != MoveFlag::EpCapture,
    ensures
        attacks_from(b.squares, b.side, p.from, p.to, occupied(b.squares)),
{
}

/// A pseudo-legal move agrees with the board.
pub proof fn pseudo_agrees(b: Board, p: MoveParts)
    requires
        board_wf(b),
        pseudo_legal(b, p),
    ensures
        agrees(b, p),
{
    let us = b.side;
    assert(king_at_home(b, us) && king_at_home(b, us.other()));
    if p.flag.captures() && p.flag != MoveFlag::EpCapture {
        move_attacks(b, p);
        let x = b.squares[p.to];
    }
    if p.from == p.to {
        let pt = p.piece;
        attack_forms(pt, us, p.from, p.to, occupied(b.squares));
        if exists|d: int| #[trigger] aims(pt, d, p.from, p.to, occupied(b.squares)) {
            let d = choose|d: int| #[trigger] aims(pt, d, p.from, p.to, occupied(b.squares));
            ray_valid(d, p.to, p.from);
        }
    }
}

/// On a playable board a pseudo-legal move captures no king.
pub proof fn pseudo_fits(b: Board, p: MoveParts)
    requires
        playable(b),
        pseudo_legal(b, p),
    ensures
        fits(b, p),
{
    pseudo_agrees(b, p);
    if p.flag.captures() && p.flag != MoveFlag::EpCapture {
        move_attacks(b, p);
        no_king_capture(b, p.from, p.to);
    }
}

/// Legal moves lead from playable boards to playable boards.
pub proof fn legal_keeps_playable(b: Board, p: MoveParts)
    requires
        playable(b),
        legal_parts(b, p),
    ensures
        fits(b, p),
        playable(after(b, p)),
{
    pseudo_fits(b, p);
    after_wf(b, p);
}

/// Passing keeps a board playable when the side that passes is not in check.
pub proof fn pass_keeps_playable(b: Board)
    requires
        playable(b),
        !in_check(b, b.side),
    ensures
        playable(after_null(b)),
{
    assert(king_at_home(b, Color::White) && king_at_home(b, Color::Black));
}

/// For pieces other than the king, legality is a matter of checks and pins.
pub proof fn piece_move_safe(b: Board, p: MoveParts)
    requires
        board_wf(b),
        pseudo_legal(b, p),
        p.piece != PieceType::King,
        p.flag != MoveFlag::EpCapture,
    ensures
        king_safe(b, p) <==> evades(b, p.to) && keeps_pin(b, p.from, p.to),
{
    pseudo_agrees(b, p);
    assert(king_at_home(b, b.side));
    let c = after(b, p);
    assert(plain_step(b, c.squares, p.from, p.to));
    assert(in_check(c, b.side) == exposed(b, c.squares));
    if king_safe(b, p) {
        safe_is_answered(b, c.squares, p.from, p.to);
    }
    if evades(b, p.to) && keeps_pin(b, p.from, p.to) {
        answered_is_safe(b, c.squares, p.from, p.to);
    }
}

/// The occupied squares once the king has left `k`.
pub open spec fn without(occ: Seq<bool>, k: int) -> Seq<bool> {
    occ.update(k, false)
}

/// What a piece reaches does not depend on whether the target is occupied.
proof fn target_does_not_matter(pt: PieceType, c: Color, s: int, t: int, x: Seq<bool>, y: Seq<bool>)
    requires
        forall|u: int| valid(u) && u != t ==> x[u] == y[u],
        piece_reaches(pt, c, s, t, x),
    ensures
        piece_reaches(pt, c, s, t, y),
{
    attack_forms(pt, c, s, t, x);
    attack_forms(pt, c, s, t, y);
    if !leaps(pt, c, s, t) {
        let d = choose|d: int| #[trigger] aims(pt, d, s, t, x);
        assert forall|u: int| #[trigger] on_ray(d, t, u) && on_ray(d, u, s) implies !y[u] by {
            ray_valid(d, t, u);
            assert(!x[u]);
        }
        assert(aims(pt, d, s, t, y));
    }
}

/// A piece does not attack its own square.
proof fn no_self_attack(pt: PieceType, c: Color, s: int, occ: Seq<bool>)
    ensures
        !piece_reaches(pt, c, s, s, occ),
{
    attack_forms(pt, c, s, s, occ);
    if exists|d: int| #[trigger] aims(pt, d, s, s, occ) {
        let d = choose|d: int| #[trigger] aims(pt, d, s, s, occ);
        ray_valid(d, s, s);
    }
}

/// A king step is legal exactly if its destination is not attacked once the
/// king has left its square.
pub proof fn king_step_safe(b: Board, p: MoveParts)
    requires
        board_wf(b),
        pseudo_legal(b, p),
        p.piece == PieceType::King,
        !is_castle(p),
    ensures
        king_safe(b, p) <==> !attacked(
            b.squares,
            b.side.other(),
            p.to,
            without(occupied(b.squares), p.from),
        ),
{
    pseudo_agrees(b, p);
    let us = b.side;
    let them = us.other();
    assert(king_at_home(b, us));
    let c = after(b, p);
    let occ1 = without(occupied(b.squares), p.from);
    let occ2 = occupied(c.squares);
    assert(king_of(c, us) == p.to);
    assert forall|u: int| valid(u) && u != p.to implies occ1[u] == occ2[u] by {
        let x = c.squares[u];
    }
    if in_check(c, us) {
        let s = choose|s: int| #[trigger] attacks_from(c.squares, them, s, p.to, occ2);
        assert(c.squares[s] == b.squares[s]);
        target_does_not_matter(piece_on(b.squares, s), them, s, p.to, occ2, occ1);
        assert(attacks_from(b.squares, them, s, p.to, occ1));
    }
    if attacked(b.squares, them, p.to, occ1) {
        let s = choose|s: int| #[trigger] attacks_from(b.squares, them, s, p.to, occ1);
        no_self_attack(piece_on(b.squares, s), them, s, occ1);
        assert(c.squares[s] == b.squares[s]);
        target_does_not_matter(piece_on(b.squares, s), them, s, p.to, occ1, occ2);
        assert(attacks_from(c.squares, them, s, p.to, occ2));
    }
}

/// Squares of the same rank are seen to the east or the west.
proof fn same_rank_dir(d: int, s: int, t: int)
    requires
        on_ray(d, s, t),
        rank(s) == rank(t),
    ensures
        d == 2 && file(t) > file(s) || d == 3 && file(t) < file(s),
{
    reveal(on_ray);
}

/// Castling never leaves the king in check.
pub proof fn castling_safe(b: Board, p: MoveParts)
    requires
        board_wf(b),
        castles(b, p),
        pseudo_legal(b, p),
    ensures
        king_safe(b, p),
{
    pseudo_agrees(b, p);
    let us = b.side;
    let them = us.other();
    let c = after(b, p);
    let r = home_rank(us);
    let occ = occupied(b.squares);
    let occ2 = occupied(c.squares);
    if in_check(c, us) {
        assert(king_of(c, us) == p.to);
        let s = choose|s: int| #[trigger] attacks_from(c.squares, them, s, p.to, occ2);
        let pt = piece_on(c.squares, s);
        assert(b.squares[s] == c.squares[s]);
        attack_forms(pt, them, s, p.to, occ2);
        attack_forms(pt, them, s, p.to, occ);
        if leaps(pt, them, s, p.to) {
            assert(attacks_from(b.squares, them, s, p.to, occ));
        } else {
            let d = choose|d: int| #[trigger] aims(pt, d, s, p.to, occ2);
            ray_valid(d, p.to, s);
            if d == 2 || d == 3 {
                castle_rank(d, p.to, s);
                if p.flag == MoveFlag::KingCastle {
                    if d == 2 {
                        assert(s == at(r, 7));
                    } else {
                        castle_between(3, p.to, at(r, 5), s);
                        assert(occ2[at(r, 5)]);
                    }
                } else {
                    if d == 2 {
                        castle_between(2, p.to, at(r, 3), s);
                        assert(occ2[at(r, 3)]);
                    } else {
                        assert(s == at(r, 0) || s == at(r, 1));
                    }
                }
            } else {
                assert forall|u: int| #[trigger] on_ray(d, p.to, u) && on_ray(d, u, s) implies !occ[u] by {
                    ray_valid(d, p.to, u);
                    if rank(u) == r {
                        same_rank_dir(d, p.to, u);
                    }
                    assert(!occ2[u]);
                }
                assert(aims(pt, d, s, p.to, occ));
                assert(attacks_from(b.squares, them, s, p.to, occ));
            }
        }
    }
}

proof fn castle_rank(d: int, s: int, t: int)
    requires
        on_ray(d, s, t),
        d == 2 || d == 3,
    ensures
        rank(s) == rank(t),
        d == 2 ==> file(t) > file(s),
        d == 3 ==> file(t) < file(s),
        valid(s),
        valid(t),
{
    reveal(on_ray);
}

/// The neighbour in a direction lies on the way to anything else there.
proof fn castle_between(d: int, s: int, n: int, t: int)
    requires
        on_ray(d, s, t),
        d == 2 && n == s + 1 || d == 3 && n == s - 1,
        t != n,
    ensures
        on_ray(d, s, n),
        on_ray(d, n, t),
{
    reveal(on_ray);
}

/// An en-passant capture is legal exactly if nothing but the captured pawn
/// attacks the king on the squares as they are after the capture.
pub proof fn ep_safe(b: Board, p: MoveParts, occ2: Seq<bool>)
    requires
        board_wf(b),
        pseudo_legal(b, p),
        p.piece == PieceType::Pawn,
        p.flag == MoveFlag::EpCapture,
        occ2 == occupied(squares_after(b, p)),
    ensures
        king_safe(b, p) <==> forall|s: int|
            s != ep_victim(p) ==> !#[trigger] attacks_from(
                b.squares,
                b.side.other(),
                s,
                our_king(b),
                occ2,
            ),
{
    pseudo_agrees(b, p);
    let us = b.side;
    let them = us.other();
    let k = our_king(b);
    let c = after(b, p);
    assert(king_at_home(b, us));
    assert(king_of(c, us) == k);
    if in_check(c, us) {
        let s = choose|s: int| #[trigger] attacks_from(c.squares, them, s, k, occ2);
        assert(s != ep_victim(p));
        assert(c.squares[s] == b.squares[s]);
        assert(attacks_from(b.squares, them, s, k, occ2));
    }
    assert forall|s: int|
        king_safe(b, p) && s != ep_victim(p) implies !#[trigger] attacks_from(
        b.squares,
        them,
        s,
        k,
        occ2,
    ) by {
        if attacks_from(b.squares, them, s, k, occ2) {
            assert(s != p.from && s != p.to);
            assert(c.squares[s] == b.squares[s]);
            assert(attacks_from(c.squares, them, s, k, occ2));
        }
    }
}

/// A legal en-passant capture answers every check, the captured pawn's by
/// taking it.
proof fn ep_answers(b: Board, p: MoveParts, s: int)
    requires
        board_wf(b),
        legal_parts(b, p),
        p.flag == MoveFlag::EpCapture,
        checker(b, s),
    ensures
        s == ep_victim(p) || answers(b, s, p.to),
{
    pseudo_agrees(b, p);
    let them = b.side.other();
    let k = our_king(b);
    let occ = occupied(b.squares);
    let occ2 = occupied(squares_after(b, p));
    let pt = piece_on(b.squares, s);
    ep_safe(b, p, occ2);
    if s != ep_victim(p) && !answers(b, s, p.to) {
        attack_forms(pt, them, s, k, occ);
        attack_forms(pt, them, s, k, occ2);
        if !leaps(pt, them, s, k) {
            let d = choose|d: int| #[trigger] aims(pt, d, s, k, occ);
            between_dir(d, k, s, p.to);
            assert forall|u: int| #[trigger] on_ray(d, k, u) && on_ray(d, u, s) implies !occ2[u] by {
                ray_valid(d, k, u);
                assert(!occ[u]);
            }
            assert(aims(pt, d, s, k, occ2));
        }
        assert(attacks_from(b.squares, them, s, k, occ2));
    }
}

/// A pawn that gives check and the square behind it do not lie on one line
/// with the king.
proof fn behind_checking_pawn(white: bool, pawn: int, k: int, d: int, e: int)
    requires
        pawn_reaches(white, pawn, k),
        e == if white {
            pawn - 8
        } else {
            pawn + 8
        },
    ensures
        !on_ray(d, k, e),
{
    reveal(on_ray);
}

/// In double check only the king moves.
pub proof fn double_check_king_moves(b: Board, p: MoveParts, s: int, t: int)
    requires
        board_wf(b),
        checker(b, s),
        checker(b, t),
        s != t,
        legal_parts(b, p),
    ensures
        p.piece == PieceType::King,
        !is_castle(p),
{
    let k = our_king(b);
    if p.piece != PieceType::King {
        if p.flag != MoveFlag::EpCapture {
            piece_move_safe(b, p);
            double_check(b, s, t, p.to);
            assert(answers(b, s, p.to));
            assert(answers(b, t, p.to));
        } else {
            pseudo_agrees(b, p);
            ep_answers(b, p, s);
            ep_answers(b, p, t);
            double_check(b, s, t, p.to);
            let v = ep_victim(p);
            let other = if s == v {
                t
            } else {
                s
            };
            assert(s == v || t == v);
            assert(answers(b, other, p.to) && other != v);
            assert(other != p.to);
            let d = check_line(b, other);
            between_dir(d, k, other, p.to);
            behind_checking_pawn(b.side.other() == Color::White, v, k, d, p.to);
        }
    } else if is_castle(p) {
        assert(castles(b, p));
        assert(safe_square(b, p.from));
    }
}

/// There is no castling out of check.
pub proof fn no_castling_in_check(b: Board, p: MoveParts, s: int)
    requires
        checker(b, s),
        pseudo_legal(b, p),
        p.piece == PieceType::King,
    ensures
        !is_castle(p),
{
    if is_castle(p) {
        assert(castles(b, p));
        assert(safe_square(b, p.from));
    }
}

} // verus!
