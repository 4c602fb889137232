//! What exchanges are worth, in centipawns.
use vstd::prelude::*;
use crate::exchange::{
    can_take, exchange_value, goes_before, next_taker, occupied_in_exchange, recapture,
    recapture_bounds, taker_unique,
};
use crate::geometry::{file, rank, valid};
use crate::moves::{MoveFlag, MoveParts};
use crate::pieces::{Color, PieceType, value_of};
use crate::rules::{Board, Squares};
use crate::safety::piece_on;

verus! {

/// The enemy cannot take back on the square of the capture.
pub open spec fn undefended(b: Board, p: MoveParts) -> bool {
    forall|s: int| !#[trigger] can_take(
        b.squares,
        b.side.other(),
        p.to,
        occupied_in_exchange(b, p),
        s,
    )
}

/// The enemy piece on `s` is the only one that can take back, and nothing can
/// take it there in its turn.
pub open spec fn defended_once(b: Board, p: MoveParts, s: int) -> bool {
    let occ = occupied_in_exchange(b, p);
    &&& valid(s)
    &&& can_take(b.squares, b.side.other(), p.to, occ, s)
    &&& forall|t: int| #[trigger] can_take(b.squares, b.side.other(), p.to, occ, t) ==> t == s
    &&& forall|t: int| !#[trigger] can_take(b.squares, b.side, p.to, occ.update(s, false), t)
}

/// Nobody takes where nobody can.
proof fn no_taker(squares: Squares, side: Color, to: int, occ: Seq<bool>, worth: int, steps: nat)
    requires
        forall|s: int| !#[trigger] can_take(squares, side, to, occ, s),
    ensures
        recapture(squares, side, to, occ, worth, steps) == 0,
{
    if exists|s: int| next_taker(squares, side, to, occ, s) {
        let s = choose|s: int| next_taker(squares, side, to, occ, s);
        assert(can_take(squares, side, to, occ, s));
    }
}

/// Taking an undefended piece gains what it is worth: a pawn, also en passant,
/// 100, a knight 320, a bishop 330, a rook 500, a queen 900.
pub proof fn free_capture_gains(b: Board, p: MoveParts)
    requires
        p.flag.captures(),
        undefended(b, p),
    ensures
        p.flag == MoveFlag::EpCapture || p.captured == PieceType::Pawn ==> exchange_value(b, p)
            == 100,
        p.flag != MoveFlag::EpCapture && p.captured == PieceType::Knight ==> exchange_value(b, p)
            == 320,
        p.flag != MoveFlag::EpCapture && p.captured == PieceType::Bishop ==> exchange_value(b, p)
            == 330,
        p.flag != MoveFlag::EpCapture && p.captured == PieceType::Rook ==> exchange_value(b, p)
            == 500,
        p.flag != MoveFlag::EpCapture && p.captured == PieceType::Queen ==> exchange_value(b, p)
            == 900,
{
    no_taker(
        b.squares,
        b.side.other(),
        p.to,
        occupied_in_exchange(b, p),
        value_of(p.piece),
        31,
    );
}

/// One that takes back without being taken gains all there is.
proof fn single_taker(squares: Squares, side: Color, to: int, occ: Seq<bool>, worth: int, s: int)
    requires
        worth >= 0,
        can_take(squares, side, to, occ, s),
        forall|t: int| #[trigger] can_take(squares, side, to, occ, t) ==> t == s,
        forall|t: int| !#[trigger] can_take(squares, side.other(), to, occ.update(s, false), t),
    ensures
        recapture(squares, side, to, occ, worth, 31) == worth,
{
    assert(next_taker(squares, side, to, occ, s)) by {
        assert forall|t: int| #[trigger] can_take(squares, side, to, occ, t) implies goes_before(
            squares,
            s,
            t,
        ) by {}
    }
    taker_unique(squares, side, to, occ, s);
    no_taker(
        squares,
        side.other(),
        to,
        occ.update(s, false),
        value_of(piece_on(squares, s)),
        30,
    );
}

/// Where a piece takes another that is defended once, by anything, and nothing
/// more bears on the square, the piece that takes is lost for what it took: a
/// pawn for 100, a knight for 320, a bishop for 330, a rook for 500, a queen for
/// 900.
pub proof fn defended_capture_trades(b: Board, p: MoveParts, s: int)
    requires
        p.flag.captures(),
        p.flag != MoveFlag::EpCapture,
        defended_once(b, p, s),
    ensures
        ({
            let gained = exchange_value(b, p) + match p.piece {
                PieceType::Pawn => 100int,
                PieceType::Knight => 320,
                PieceType::Bishop => 330,
                PieceType::Rook => 500,
                PieceType::Queen => 900,
                _ => 0,
            };
            &&& p.captured == PieceType::Pawn ==> gained == 100
            &&& p.captured == PieceType::Knight ==> gained == 320
            &&& p.captured == PieceType::Bishop ==> gained == 330
            &&& p.captured == PieceType::Rook ==> gained == 500
            &&& p.captured == PieceType::Queen ==> gained == 900
        }),
{
    single_taker(
        b.squares,
        b.side.other(),
        p.to,
        occupied_in_exchange(b, p),
        value_of(p.piece),
        s,
    );
}

/// Whatever bears on the square: a capture never gains more than the piece that
/// it takes, never loses more than the piece that takes, and taking something
/// worth at least as much as the taker never loses.
pub proof fn capture_within_numbers(b: Board, p: MoveParts)
    requires
        p.flag.captures(),
        p.flag != MoveFlag::EpCapture,
    ensures
        p.captured == PieceType::Pawn ==> exchange_value(b, p) <= 100,
        p.captured == PieceType::Knight ==> exchange_value(b, p) <= 320,
        p.captured == PieceType::Bishop ==> exchange_value(b, p) <= 330,
        p.captured == PieceType::Rook ==> exchange_value(b, p) <= 500,
        p.captured == PieceType::Queen ==> exchange_value(b, p) <= 900,
        p.piece == PieceType::Pawn && p.captured == PieceType::Pawn ==> exchange_value(b, p) >= 0,
        p.piece == PieceType::Pawn && p.captured == PieceType::Knight ==> exchange_value(b, p)
            >= 220,
        p.piece == PieceType::Pawn && p.captured == PieceType::Bishop ==> exchange_value(b, p)
            >= 230,
        p.piece == PieceType::Pawn && p.captured == PieceType::Rook ==> exchange_value(b, p) >= 400,
        p.piece == PieceType::Pawn && p.captured == PieceType::Queen ==> exchange_value(b, p)
            >= 800,
        p.piece == PieceType::Knight && p.captured == PieceType::Queen ==> exchange_value(b, p)
            >= 580,
        p.piece == PieceType::Rook && p.captured == PieceType::Queen ==> exchange_value(b, p)
            >= 400,
        p.piece == p.captured ==> exchange_value(b, p) >= 0,
{
    recapture_bounds(
        b.squares,
        b.side.other(),
        p.to,
        occupied_in_exchange(b, p),
        value_of(p.piece),
        31,
    );
}

/// A move that takes nothing has no exchange.
pub proof fn quiet_move_gains_nothing(b: Board, p: MoveParts)
    requires
        !p.flag.captures(),
    ensures
        exchange_value(b, p) == 0,
{
}

proof fn least_below(squares: Squares, side: Color, to: int, occ: Seq<bool>, s: int, n: int) -> (t: int)
    requires
        0 <= s < n,
        can_take(squares, side, to, occ, s),
    ensures
        0 <= t < n,
        can_take(squares, side, to, occ, t),
        forall|u: int|
            0 <= u < n && #[trigger] can_take(squares, side, to, occ, u) ==> goes_before(
                squares,
                t,
                u,
            ),
    decreases n,
{
    if s == n - 1 {
        if exists|u: int| 0 <= u < n - 1 && #[trigger] can_take(squares, side, to, occ, u) {
            let u = choose|u: int| 0 <= u < n - 1 && #[trigger] can_take(squares, side, to, occ, u);
            let t = least_below(squares, side, to, occ, u, n - 1);
            if goes_before(squares, t, s) {
                t
            } else {
                s
            }
        } else {
            s
        }
    } else {
        let t = least_below(squares, side, to, occ, s, n - 1);
        if can_take(squares, side, to, occ, n - 1) && goes_before(squares, n - 1, t) {
            n - 1
        } else {
            t
        }
    }
}

/// If anything can take, something takes next, and it is the cheapest.
proof fn taker_exists(squares: Squares, side: Color, to: int, occ: Seq<bool>, s: int) -> (t: int)
    requires
        can_take(squares, side, to, occ, s),
    ensures
        next_taker(squares, side, to, occ, t),
        t == (choose|u: int| next_taker(squares, side, to, occ, u)),
        goes_before(squares, t, s),
{
    let t = least_below(squares, side, to, occ, s, 64);
    assert forall|u: int| #[trigger] can_take(squares, side, to, occ, u) implies goes_before(
        squares,
        t,
        u,
    ) by {
        assert(valid(u));
    }
    taker_unique(squares, side, to, occ, t);
    t
}

/// The enemy takes back with the cheapest piece it has: if the piece on `s` can
/// take back, then no more comes back to us than the number of that piece.
pub proof fn cheapest_takes_first(b: Board, p: MoveParts, s: int)
    requires
        p.flag.captures(),
        p.flag != MoveFlag::EpCapture,
        can_take(b.squares, b.side.other(), p.to, occupied_in_exchange(b, p), s),
    ensures
        ({
            let lost = match p.piece {
                PieceType::Pawn => 100int,
                PieceType::Knight => 320,
                PieceType::Bishop => 330,
                PieceType::Rook => 500,
                PieceType::Queen => 900,
                _ => 0,
            };
            let prize = match p.captured {
                PieceType::Pawn => 100int,
                PieceType::Knight => 320,
                PieceType::Bishop => 330,
                PieceType::Rook => 500,
                PieceType::Queen => 900,
                _ => 0,
            };
            let by = piece_on(b.squares, s);
            &&& by == PieceType::Pawn ==> exchange_value(b, p) <= prize - lost + 100
            &&& by == PieceType::Knight ==> exchange_value(b, p) <= prize - lost + 320
            &&& by == PieceType::Bishop ==> exchange_value(b, p) <= prize - lost + 330
            &&& by == PieceType::Rook ==> exchange_value(b, p) <= prize - lost + 500
        }),
{
    let them = b.side.other();
    let occ = occupied_in_exchange(b, p);
    let t = taker_exists(b.squares, them, p.to, occ, s);
    recapture_bounds(
        b.squares,
        them.other(),
        p.to,
        occ.update(t, false),
        value_of(piece_on(b.squares, t)),
        30,
    );
}

/// Three captures in a row: we take, the enemy takes back with its only piece,
/// and we take again with our only other piece, also one that bears on the square
/// only now; then it is over. The enemy takes back only if that pays.
pub proof fn second_attacker_counts(b: Board, p: MoveParts, s: int, t: int)
    requires
        p.flag.captures(),
        p.flag != MoveFlag::EpCapture,
        ({
            let occ = occupied_in_exchange(b, p);
            let occ1 = occ.update(s, false);
            let occ2 = occ1.update(t, false);
            &&& can_take(b.squares, b.side.other(), p.to, occ, s)
            &&& forall|u: int| #[trigger]
                can_take(b.squares, b.side.other(), p.to, occ, u) ==> u == s
            &&& can_take(b.squares, b.side, p.to, occ1, t)
            &&& forall|u: int| #[trigger] can_take(b.squares, b.side, p.to, occ1, u) ==> u == t
            &&& forall|u: int| !#[trigger] can_take(b.squares, b.side.other(), p.to, occ2, u)
        }),
    ensures
        ({
            let number = |pt: PieceType|
                match pt {
                    PieceType::Pawn => 100int,
                    PieceType::Knight => 320,
                    PieceType::Bishop => 330,
                    PieceType::Rook => 500,
                    PieceType::Queen => 900,
                    _ => 0,
                };
            let (mover, taker) = (number(p.piece), number(piece_on(b.squares, s)));
            exchange_value(b, p) == number(p.captured) - if mover > taker {
                mover - taker
            } else {
                0
            }
        }),
{
    let them = b.side.other();
    let occ = occupied_in_exchange(b, p);
    let occ1 = occ.update(s, false);
    assert(next_taker(b.squares, them, p.to, occ, s));
    taker_unique(b.squares, them, p.to, occ, s);
    assert(next_taker(b.squares, b.side, p.to, occ1, t));
    taker_unique(b.squares, b.side, p.to, occ1, t);
    no_taker(
        b.squares,
        them,
        p.to,
        occ1.update(t, false),
        value_of(piece_on(b.squares, t)),
        29,
    );
    assert(them.other() == b.side);
    assert(recapture(
        b.squares,
        b.side,
        p.to,
        occ1,
        value_of(piece_on(b.squares, s)),
        30,
    ) == value_of(piece_on(b.squares, s)));
}

/// While an exchange goes on, the capturing piece has left its square, and a pawn
/// taken en passant its own; all other squares are as they are.
pub proof fn exchange_clears_squares(b: Board, p: MoveParts, s: int)
    requires
        b.squares.len() == 64,
        0 <= s < 64,
        valid(p.from),
        valid(p.to),
    ensures
        occupied_in_exchange(b, p)[s] <==> b.squares[s] is Some && s != p.from && !(p.flag
            == MoveFlag::EpCapture && s == 8 * rank(p.from) + file(p.to)),
{
}

} // verus!
