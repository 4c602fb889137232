//! Static exchange evaluation: what a capture gains when both sides go on
//! capturing on the same square for as long as it pays.
use vstd::prelude::*;
use crate::bitboard::{bit, file_of, rank_of, sq};
use crate::bits::{flags, group_bits, lowest, no_members, on};
use crate::geometry::valid;
use crate::movegen::{attackers_of, occ_all_flags};
use crate::moves::{Move, MoveFlag, MoveParts};
use crate::pieces::{Color, PIECE_TYPES, PieceType, piece_value, value_of};
use crate::position::Position;
use crate::rules::{Board, Squares, attacks_from, ep_victim, occupied};
use crate::safety::piece_on;

verus! {

broadcast use group_bits;

/// The piece on `s`, still on the board, can capture on `to`.
pub open spec fn can_take(squares: Squares, side: Color, to: int, occ: Seq<bool>, s: int) -> bool {
    attacks_from(squares, side, s, to, occ) && occ[s]
}

/// The piece on `s` captures before the one on `t`: it is worth less, or as
/// much and stands on a lower square. The king captures last.
pub open spec fn goes_before(squares: Squares, s: int, t: int) -> bool {
    let a = piece_on(squares, s).index();
    let b = piece_on(squares, t).index();
    a < b || (a == b && s <= t)
}

/// The piece on `s` is the next to capture.
pub open spec fn next_taker(squares: Squares, side: Color, to: int, occ: Seq<bool>, s: int) -> bool {
    &&& can_take(squares, side, to, occ, s)
    &&& forall|t: int| #[trigger]
        can_take(squares, side, to, occ, t) ==> goes_before(squares, s, t)
}

/// What `side` gains by capturing a piece of the given worth on `to`, when it
/// may also leave it and the other side answers in kind.
pub open spec fn recapture(
    squares: Squares,
    side: Color,
    to: int,
    occ: Seq<bool>,
    worth: int,
    steps: nat,
) -> int
    decreases steps,
{
    if steps == 0 || !(exists|s: int| next_taker(squares, side, to, occ, s)) {
        0
    } else {
        let s = choose|s: int| next_taker(squares, side, to, occ, s);
        let answer = recapture(
            squares,
            side.other(),
            to,
            occ.update(s, false),
            value_of(piece_on(squares, s)),
            (steps - 1) as nat,
        );
        if worth - answer > 0 {
            worth - answer
        } else {
            0
        }
    }
}

/// The occupied squares once the capturing piece has left, and with it a pawn
/// taken en passant.
pub open spec fn occupied_in_exchange(b: Board, p: MoveParts) -> Seq<bool> {
    let left_from = occupied(b.squares).update(p.from, false);
    if p.flag == MoveFlag::EpCapture {
        left_from.update(ep_victim(p), false)
    } else {
        left_from
    }
}

/// The net gain of a capture; zero for other moves.
pub open spec fn exchange_value(b: Board, p: MoveParts) -> int {
    if !p.flag.captures() {
        0
    } else {
        let prize = if p.flag == MoveFlag::EpCapture {
            value_of(PieceType::Pawn)
        } else {
            value_of(p.captured)
        };
        prize - recapture(
            b.squares,
            b.side.other(),
            p.to,
            occupied_in_exchange(b, p),
            value_of(p.piece),
            31,
        )
    }
}

/// The next to capture is unique.
pub proof fn taker_unique(squares: Squares, side: Color, to: int, occ: Seq<bool>, s: int)
    requires
        next_taker(squares, side, to, occ, s),
    ensures
        s == (choose|t: int| next_taker(squares, side, to, occ, t)),
{
    let t = choose|t: int| next_taker(squares, side, to, occ, t);
    assert(next_taker(squares, side, to, occ, t));
    assert(goes_before(squares, s, t) && goes_before(squares, t, s));
}

/// The gain never exceeds the worth of the captured piece.
pub proof fn recapture_bounds(
    squares: Squares,
    side: Color,
    to: int,
    occ: Seq<bool>,
    worth: int,
    steps: nat,
)
    requires
        worth >= 0,
    ensures
        0 <= recapture(squares, side, to, occ, worth, steps) <= worth,
    decreases steps,
{
    if steps > 0 && exists|s: int| next_taker(squares, side, to, occ, s) {
        let s = choose|s: int| next_taker(squares, side, to, occ, s);
        recapture_bounds(
            squares,
            side.other(),
            to,
            occ.update(s, false),
            value_of(piece_on(squares, s)),
            (steps - 1) as nat,
        );
    }
}

/// A capture never gains more than it takes, nor loses more than the piece
/// that captures.
pub proof fn exchange_bounds(b: Board, p: MoveParts)
    requires
        p.flag.captures(),
    ensures
        ({
            let prize = if p.flag == MoveFlag::EpCapture {
                value_of(PieceType::Pawn)
            } else {
                value_of(p.captured)
            };
            prize - value_of(p.piece) <= exchange_value(b, p) <= prize
        }),
{
    recapture_bounds(
        b.squares,
        b.side.other(),
        p.to,
        occupied_in_exchange(b, p),
        value_of(p.piece),
        31,
    );
}

/// The gains of a row of captures, folded back from depth `d` with the last
/// one worth `v`: each side in turn takes the better of stopping and going on.
spec fn folded(gain: [i32; 32], d: int, v: int) -> int
    decreases d,
{
    if d <= 0 {
        v
    } else {
        let stop = -gain[d - 1] as int;
        folded(
            gain,
            d - 1,
            -(if stop > v {
                stop
            } else {
                v
            }),
        )
    }
}

proof fn folded_agrees(a: [i32; 32], b: [i32; 32], d: int, v: int)
    requires
        d <= 32,
        forall|i: int| 0 <= i < d ==> a[i] == b[i],
    ensures
        folded(a, d, v) == folded(b, d, v),
    decreases d,
{
    if d > 0 {
        let stop = -a[d - 1] as int;
        folded_agrees(
            a,
            b,
            d - 1,
            -(if stop > v {
                stop
            } else {
                v
            }),
        );
    }
}

/// The next piece to capture on `to`.
fn least_attacker(pos: &Position, side: Color, attackers: u64) -> (r: Option<(PieceType, u8)>)
    requires
        pos.masks_wf(),
        forall|s: int| #[trigger]
            on(attackers, s) ==> (pos.mailbox@[s] matches Some((c, _)) && c == side),
    ensures
        match r {
            Some((pt, s)) => {
                &&& on(attackers, s as int)
                &&& pos.mailbox@[s as int] == Some((side, pt))
                &&& pt != PieceType::NoPiece
                &&& forall|t: int| #[trigger]
                    on(attackers, t) ==> goes_before(pos.mailbox@, s as int, t)
            },
            None => attackers == 0,
        },
{
    let mut i: usize = 0;
    while i < 6
        invariant
            i <= 6,
            pos.masks_wf(),
            forall|s: int| #[trigger]
                on(attackers, s) ==> (pos.mailbox@[s] matches Some((c, _)) && c == side),
            forall|s: int| #[trigger]
                on(attackers, s) ==> piece_on(pos.mailbox@, s).index() >= i,
        decreases 6 - i,
    {
        let pt = PIECE_TYPES[i];
        let bb = attackers & pos.pieces[side.idx()][pt.idx()];
        proof {
            assert(pt.index() == i);
            assert forall|s: int| #[trigger] on(bb, s) <==> on(attackers, s) && pos.mailbox@[s] == Some(
                (side, pt),
            ) by {
                if valid(s) {
                    assert(on(pos.pieces[side.index()][pt.index()], s) <==> pos.mailbox@[s] == Some(
                        (side, pt),
                    ));
                }
            }
        }
        if bb != 0 {
            proof {
                lowest(bb);
            }
            let s = bb.trailing_zeros() as u8;
            proof {
                assert(on(bb, s as int));
                assert forall|t: int| #[trigger] on(attackers, t) implies goes_before(
                    pos.mailbox@,
                    s as int,
                    t,
                ) by {
                    let q = piece_on(pos.mailbox@, t);
                    if q.index() == i {
                        assert(q == pt);
                        assert(on(bb, t));
                    }
                }
            }
            return Some((pt, s));
        }
        proof {
            assert forall|s: int| #[trigger] on(attackers, s) implies piece_on(
                pos.mailbox@,
                s,
            ).index() >= i + 1 by {
                let q = piece_on(pos.mailbox@, s);
                if q.index() == i {
                    assert(q == pt);
                    assert(on(bb, s));
                    assert(!on(0u64, s));
                }
            }
        }
        i += 1;
    }
    proof {
        assert forall|s: int| !on(attackers, s) by {
            if on(attackers, s) {
                assert(valid(s));
                assert(pos.mailbox@[s] is Some);
            }
        }
        no_members(attackers);
    }
    None
}

/// The net gain, in centipawns, of a capture for the side that makes it.
pub fn see(pos: &Position, m: Move) -> (r: i32)
    requires
        pos.masks_wf(),
        m.wf(),
    ensures
        r == exchange_value(pos@, m.parts()),
        -900 <= r <= 900,
{
    let ghost b = pos@;
    let ghost p = m.parts();
    let ghost squares = b.squares;
    let flag = m.flag();
    if !flag.is_capture() {
        return 0;
    }
    let to = m.to_sq();
    let from = m.from_sq();
    let mut occ = pos.occ_all & !bit(from);
    if flag == MoveFlag::EpCapture {
        let ep_cap_sq = sq(rank_of(from), file_of(to));
        occ = occ & !bit(ep_cap_sq);
    }
    let mut gain: [i32; 32] = [0i32; 32];
    gain[0] = if flag == MoveFlag::EpCapture {
        piece_value(PieceType::Pawn)
    } else {
        piece_value(m.captured())
    };
    let mut moving_value = piece_value(m.piece());
    let mut side = pos.side_to_move.opponent();
    let mut depth: usize = 0;
    let ghost goal = exchange_value(b, p);
    proof {
        occ_all_flags(pos);
        assert(flags(occ) =~= occupied_in_exchange(b, p)) by {
            assert forall|s: int| 0 <= s < 64 implies flags(occ)[s] == occupied_in_exchange(b, p)[s] by {
                assert(on(pos.occ_all, s) <==> pos.mailbox@[s] is Some);
            }
        }
        exchange_bounds(b, p);
    }
    let mut going = true;
    while going
        invariant
            pos.masks_wf(),
            b == pos@,
            squares == b.squares,
            to < 64,
            depth <= 31,
            0 <= moving_value <= 900,
            forall|i: int| 0 <= i <= depth ==> -900 * (i + 1) <= #[trigger] gain[i] <= 900 * (i + 1),
            going ==> goal == folded(
                gain,
                depth as int,
                gain[depth as int] - recapture(
                    squares,
                    side,
                    to as int,
                    flags(occ),
                    moving_value as int,
                    (31 - depth) as nat,
                ),
            ),
            !going ==> goal == folded(gain, depth as int, gain[depth as int] as int),
        decreases 31 - depth,
            if going {
                1int
            } else {
                0int
            },
    {
        let attackers = attackers_of(pos, side, to, occ) & occ;
        proof {
            assert forall|s: int| #[trigger] on(attackers, s) <==> can_take(
                squares,
                side,
                to as int,
                flags(occ),
                s,
            ) by {}
            assert forall|s: int| #[trigger] can_take(squares, side, to as int, flags(occ), s) <==> on(
                attackers,
                s,
            ) by {}
        }
        let next = least_attacker(pos, side, attackers);
        if depth >= 31 {
            going = false;
        } else {
            match next {
                None => {
                    proof {
                        assert forall|s: int| !next_taker(squares, side, to as int, flags(occ), s) by {
                            if can_take(squares, side, to as int, flags(occ), s) {
                                assert(on(attackers, s));
                                assert(!on(0u64, s));
                            }
                        }
                    }
                    going = false;
                },
                Some((attacker_pt, attacker_sq)) => {
                    let ghost t = attacker_sq as int;
                    let ghost old_gain = gain;
                    let ghost old_occ = occ;
                    let ghost d = depth as int;
                    proof {
                        assert(next_taker(squares, side, to as int, flags(occ), t));
                        taker_unique(squares, side, to as int, flags(occ), t);
                    }
                    depth += 1;
                    assert(-900 * (d + 1) <= gain[d] <= 900 * (d + 1));
                    gain[depth] = moving_value - gain[depth - 1];
                    occ = occ & !bit(attacker_sq);
                    proof {
                        assert(flags(occ) =~= flags(old_occ).update(t, false));
                        let w = recapture(
                            squares,
                            side.other(),
                            to as int,
                            flags(occ),
                            value_of(attacker_pt),
                            (31 - depth) as nat,
                        );
                        folded_agrees(old_gain, gain, d, gain[d] - recapture(
                            squares,
                            side,
                            to as int,
                            flags(old_occ),
                            moving_value as int,
                            (31 - d) as nat,
                        ));
                        assert(folded(gain, d + 1, gain[d + 1] - w) == folded(
                            gain,
                            d,
                            gain[d] - recapture(
                                squares,
                                side,
                                to as int,
                                flags(old_occ),
                                moving_value as int,
                                (31 - d) as nat,
                            ),
                        ));
                    }
                    moving_value = piece_value(attacker_pt);
                    side = side.opponent();
                },
            }
        }
    }
    while depth > 0
        invariant
            depth <= 31,
            forall|i: int| 0 <= i <= depth ==> -900 * (i + 1) <= #[trigger] gain[i] <= 900 * (i + 1)
                || (i == depth && -30000 <= gain[i] <= 30000),
            goal == folded(gain, depth as int, gain[depth as int] as int),
        decreases depth,
    {
        let ghost old_gain = gain;
        let ghost d = depth as int;
        assert(-900 * d <= gain[d - 1] <= 900 * d);
        assert(-30000 <= gain[d] <= 30000);
        let stop: i32 = -gain[depth - 1];
        let best: i32 = if stop > gain[depth] {
            stop
        } else {
            gain[depth]
        };
        gain[depth - 1] = -best;
        depth -= 1;
        proof {
            folded_agrees(old_gain, gain, d - 1, -best as int);
        }
    }
    gain[0]
}

} // verus!
