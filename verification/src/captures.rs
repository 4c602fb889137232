//! Captures for quiescence: all captures that follow the rules of movement,
//! with those of the king and of pieces in line with it tested for safety.
use vstd::prelude::*;
use crate::bitboard::{file_of, pop_lsb, rank_of, sq};
use crate::bits::{group_bits, on};
use crate::geometry::{file, rank, valid};
use crate::legality::pseudo_fits;
use crate::movegen::{
    is_ep_target, is_in_check, move_of, pawn_variants, piece_attacks, push_pawn_move,
};
use crate::moves::{Move, MoveFlag, MoveList, MoveParts, packed};
use crate::pieces::{Color, PieceType};
use crate::position::{Position, made_is_restorable, undo_of};
use crate::rules::{
    Board, at, ep_target_ok, fits, king_safe, legal, occupied, piece_reaches, playable,
    promo_rank, pseudo_legal,
};
use crate::safety::{our_king, piece_on};

verus! {

broadcast use group_bits;

/// The square lies on the king's rank, file or a diagonal of it.
pub open spec fn in_line(s: int, k: int) -> bool {
    let df = file(s) - file(k);
    let dr = rank(s) - rank(k);
    df == 0 || dr == 0 || df == dr || df == -dr
}

/// Captures of this piece are tested for the safety of the king.
pub open spec fn is_tested(b: Board, pt: PieceType, from: int) -> bool {
    pt == PieceType::King || in_line(from, our_king(b))
}

pub open spec fn capture_parts(b: Board, pt: PieceType, from: int, to: int) -> MoveParts {
    MoveParts {
        from,
        to,
        flag: MoveFlag::Capture,
        piece: pt,
        captured: piece_on(b.squares, to),
    }
}

/// The piece on `from`, not a pawn, captures on `to`.
pub open spec fn takes(b: Board, pt: PieceType, from: int, to: int) -> bool {
    &&& piece_reaches(pt, b.side, from, to, occupied(b.squares))
    &&& b.squares[to] matches Some((c, _))
    &&& c == b.side.other()
    &&& is_tested(b, pt, from) ==> king_safe(b, capture_parts(b, pt, from, to))
}

/// The captures from `from` on the squares below `n`, in order.
pub open spec fn takes_below(b: Board, pt: PieceType, from: int, n: int) -> Seq<Move>
    decreases n,
{
    if n <= 0 {
        seq![]
    } else if takes(b, pt, from, n - 1) {
        takes_below(b, pt, from, n - 1).push(packed(capture_parts(b, pt, from, n - 1)))
    } else {
        takes_below(b, pt, from, n - 1)
    }
}

/// The captures of a pawn on one square: of a piece, with all promotions, or
/// en passant.
pub open spec fn pawn_takes(b: Board, from: int, df: int) -> Seq<Move> {
    let r = rank(from) + if b.side == Color::White {
        1int
    } else {
        -1int
    };
    let f = file(from) + df;
    let to = at(r, f);
    if !(0 <= r < 8 && 0 <= f < 8) {
        seq![]
    } else {
        match b.squares[to] {
            Some((c, pt)) => if c == b.side.other() {
                pawn_variants(from, to, r == promo_rank(b.side), true, pt)
            } else {
                seq![]
            },
            None => if b.ep == Some(to as u8) && ep_target_ok(b, to) {
                seq![move_of(from, to, MoveFlag::EpCapture, PieceType::Pawn, PieceType::Pawn)]
            } else {
                seq![]
            },
        }
    }
}

/// The captures of one piece.
pub open spec fn captures_from(b: Board, pt: PieceType, from: int) -> Seq<Move> {
    if pt == PieceType::Pawn {
        pawn_takes(b, from, 1) + pawn_takes(b, from, -1)
    } else {
        takes_below(b, pt, from, 64)
    }
}

/// The captures of the pieces of one type on the squares below `n`.
pub open spec fn captures_below(b: Board, pt: PieceType, n: int) -> Seq<Move>
    decreases n,
{
    if n <= 0 {
        seq![]
    } else if b.squares[n - 1] == Some((b.side, pt)) {
        captures_below(b, pt, n - 1) + captures_from(b, pt, n - 1)
    } else {
        captures_below(b, pt, n - 1)
    }
}

/// The order of the pieces: king, knights, bishops, rooks, queens, pawns.
pub open spec fn capture_order(i: int) -> PieceType {
    if i == 0 {
        PieceType::King
    } else if i == 1 {
        PieceType::Knight
    } else if i == 2 {
        PieceType::Bishop
    } else if i == 3 {
        PieceType::Rook
    } else if i == 4 {
        PieceType::Queen
    } else {
        PieceType::Pawn
    }
}

/// The captures of the first `n` types of pieces.
pub open spec fn captures_of_first(b: Board, n: int) -> Seq<Move>
    decreases n,
{
    if n <= 0 {
        seq![]
    } else {
        captures_of_first(b, n - 1) + captures_below(b, capture_order(n - 1), 64)
    }
}

/// The captures for quiescence, in the order in which they are listed.
pub open spec fn qsearch_captures(b: Board) -> Seq<Move> {
    captures_of_first(b, 6)
}

/// Squares without a capture add nothing.
proof fn takes_skip(b: Board, pt: PieceType, from: int, m: int, n: int)
    requires
        0 <= m <= n,
        forall|t: int| m <= t < n ==> !#[trigger] takes(b, pt, from, t),
    ensures
        takes_below(b, pt, from, n) == takes_below(b, pt, from, m),
    decreases n - m,
{
    if m < n {
        assert(!takes(b, pt, from, n - 1));
        takes_skip(b, pt, from, m, n - 1);
    }
}

proof fn captures_skip(b: Board, pt: PieceType, m: int, n: int)
    requires
        0 <= m <= n,
        forall|s: int| m <= s < n ==> #[trigger] b.squares[s] != Some((b.side, pt)),
    ensures
        captures_below(b, pt, n) == captures_below(b, pt, m),
    decreases n - m,
{
    if m < n {
        assert(b.squares[n - 1] != Some((b.side, pt)));
        captures_skip(b, pt, m, n - 1);
    }
}

/// Whether a capture leaves the king safe, found out by making it.
fn capture_is_safe(pos: &mut Position, m: Move) -> (r: bool)
    requires
        old(pos).wf(),
        m.wf(),
        fits(old(pos)@, m.parts()),
    ensures
        final(pos).wf(),
        final(pos)@ == old(pos)@,
        final(pos).ctx == old(pos).ctx,
        final(pos).undo_stack@ == old(pos).undo_stack@,
        r == king_safe(old(pos)@, m.parts()),
{
    let us = pos.side_to_move;
    let ghost stack = pos.undo_stack@;
    proof {
        made_is_restorable(pos@, m.parts());
        assert(stack.push(undo_of(pos@, m.parts())).drop_last() =~= stack);
    }
    pos.make_move(m);
    let bad = is_in_check(pos, us);
    pos.unmake_move(m);
    !bad
}

/// Appends the captures of a piece that is not a pawn.
fn push_piece_captures(pos: &mut Position, pt: PieceType, from: u8, list: &mut MoveList)
    requires
        old(pos).wf(),
        playable(old(pos)@),
        pt != PieceType::Pawn,
        pt != PieceType::NoPiece,
        from < 64,
        old(pos).mailbox@[from as int] == Some((old(pos).side_to_move, pt)),
    ensures
        final(pos).wf(),
        final(pos)@ == old(pos)@,
        final(pos).ctx == old(pos).ctx,
        final(pos).undo_stack@ == old(pos).undo_stack@,
        final(list)@ == old(list)@ + takes_below(old(pos)@, pt, from as int, 64),
{
    let ghost b = pos@;
    let ghost f = from as int;
    let ghost base = list@;
    let us = pos.side_to_move;
    let them = us.opponent();
    let ksq = pos.king_square[us.idx()];
    let fi: i32 = file_of(from) as i32;
    let r: i32 = rank_of(from) as i32;
    let kf: i32 = file_of(ksq) as i32;
    let kr: i32 = rank_of(ksq) as i32;
    let must_filter = pt == PieceType::King || fi == kf || r == kr || fi - kf == r - kr || fi - kf
        == kr - r;
    let targets = piece_attacks(pos, pt, from) & pos.occ[them.idx()];
    proof {
        assert forall|s: int| #[trigger] on(targets, s) <==> valid(s) && piece_reaches(
            pt,
            us,
            f,
            s,
            occupied(b.squares),
        ) && (b.squares[s] matches Some((c, _)) && c == them) by {
            if valid(s) {
                assert(on(pos.occ[them.index()], s) <==> (pos.mailbox@[s] matches Some((c, _)) && c
                    == them));
            }
        }
        assert(must_filter == is_tested(b, pt, f));
        assert(base + takes_below(b, pt, f, 0) =~= base);
    }
    let mut t = targets;
    let ghost mut low: int = 0;
    while t != 0
        invariant
            pos.wf(),
            pos@ == b,
            b == old(pos)@,
            pos.ctx == old(pos).ctx,
            pos.undo_stack@ == old(pos).undo_stack@,
            playable(b),
            pt != PieceType::Pawn,
            pt != PieceType::NoPiece,
            from < 64,
            f == from,
            us == b.side,
            them == us.other(),
            b.squares[f] == Some((us, pt)),
            must_filter == is_tested(b, pt, f),
            0 <= low <= 64,
            forall|s: int| #[trigger]
                on(targets, s) <==> valid(s) && piece_reaches(pt, us, f, s, occupied(b.squares)) && (
                b.squares[s] matches Some((c, _)) && c == them),
            forall|s: int| #[trigger] on(t, s) <==> on(targets, s) && s >= low,
            list@ == base + takes_below(b, pt, f, low),
        decreases t,
    {
        let ghost rest = t;
        let to = pop_lsb(&mut t);
        proof {
            assert(on(targets, to as int));
            assert forall|s: int| low <= s < to implies !#[trigger] takes(b, pt, f, s) by {
                if takes(b, pt, f, s) {
                    assert(on(targets, s));
                    assert(on(rest, s));
                }
            }
            takes_skip(b, pt, f, low, to as int);
        }
        if let Some((_, captured)) = pos.piece_at(to) {
            let m = Move::new(from, to, MoveFlag::Capture, pt, captured);
            proof {
                assert(m.parts() == capture_parts(b, pt, f, to as int));
                assert(pseudo_legal(b, m.parts()));
                pseudo_fits(b, m.parts());
            }
            let mut good = true;
            if must_filter {
                good = capture_is_safe(pos, m);
            }
            if good {
                list.push(m);
                proof {
                    assert(list@ =~= base + takes_below(b, pt, f, to as int).push(m));
                }
            }
            proof {
                assert(takes(b, pt, f, to as int) <==> good);
            }
        }
        proof {
            low = to + 1;
        }
    }
    proof {
        assert forall|s: int| low <= s < 64 implies !#[trigger] takes(b, pt, f, s) by {
            if takes(b, pt, f, s) {
                assert(on(targets, s));
                assert(!on(0u64, s));
            }
        }
        takes_skip(b, pt, f, low, 64);
    }
}

/// Appends the captures of a pawn on one side.
fn push_pawn_captures(pos: &Position, from: u8, right: bool, list: &mut MoveList)
    requires
        pos.wf(),
        from < 64,
        pos.mailbox@[from as int] == Some((pos.side_to_move, PieceType::Pawn)),
    ensures
        final(list)@ == old(list)@ + pawn_takes(
            pos@,
            from as int,
            if right {
                1
            } else {
                -1
            },
        ),
{
    let ghost b = pos@;
    let us = pos.side_to_move;
    let them = us.opponent();
    let is_white = us == Color::White;
    let r = rank_of(from);
    let f = file_of(from);
    let ghost base = list@;
    proof {
        assert(base + Seq::<Move>::empty() =~= base);
    }
    if (is_white && r == 7) || (!is_white && r == 0) || (right && f == 7) || (!right && f == 0) {
        return;
    }
    let to_r = if is_white {
        r + 1
    } else {
        r - 1
    };
    let to_f = if right {
        f + 1
    } else {
        f - 1
    };
    let to = sq(to_r, to_f);
    match pos.piece_at(to) {
        Some((c, captured)) => {
            if c == them {
                let promo: u8 = if is_white {
                    7
                } else {
                    0
                };
                push_pawn_move(list, from, to, promo, true, captured);
            }
        },
        None => {
            if let Some(epsq) = pos.ep_square {
                if epsq == to && is_ep_target(pos, to) {
                    let m = Move::new(
                        from,
                        to,
                        MoveFlag::EpCapture,
                        PieceType::Pawn,
                        PieceType::Pawn,
                    );
                    list.push(m);
                    proof {
                        assert(list@ =~= base + seq![m]);
                    }
                }
            }
        },
    }
}

/// Appends the captures for quiescence. The position is left as it was.
pub fn generate_qsearch_captures(pos: &mut Position, list: &mut MoveList)
    requires
        old(pos).wf(),
        playable(old(pos)@),
    ensures
        final(pos).wf(),
        final(pos)@ == old(pos)@,
        final(pos).ctx == old(pos).ctx,
        final(pos).undo_stack@ == old(pos).undo_stack@,
        final(list)@ == old(list)@ + qsearch_captures(old(pos)@),
{
    let ghost b = pos@;
    let ghost base = list@;
    let us = pos.side_to_move;
    let order: [PieceType; 6] = [
        PieceType::King,
        PieceType::Knight,
        PieceType::Bishop,
        PieceType::Rook,
        PieceType::Queen,
        PieceType::Pawn,
    ];
    let mut i: usize = 0;
    proof {
        assert(base + captures_of_first(b, 0) =~= base);
    }
    while i < 6
        invariant
            i <= 6,
            forall|j: int| 0 <= j < 6 ==> #[trigger] order@[j] == capture_order(j),
            pos.wf(),
            pos@ == b,
            b == old(pos)@,
            pos.ctx == old(pos).ctx,
            pos.undo_stack@ == old(pos).undo_stack@,
            playable(b),
            us == b.side,
            list@ == base + captures_of_first(b, i as int),
        decreases 6 - i,
    {
        let pt = order[i];
        assert(pt == capture_order(i as int));
        let all = pos.pieces[us.idx()][pt.idx()];
        proof {
            assert forall|s: int| #[trigger] on(all, s) <==> valid(s) && b.squares[s] == Some((us, pt)) by {
                if valid(s) {
                    assert(on(pos.pieces[us.index()][pt.index()], s) <==> pos.mailbox@[s] == Some(
                        (us, pt),
                    ));
                }
            }
        }
        let ghost before = list@;
        proof {
            assert(before + captures_below(b, pt, 0) =~= before);
        }
        let mut bb = all;
        let ghost mut low: int = 0;
        while bb != 0
            invariant
                pos.wf(),
                pos@ == b,
                b == old(pos)@,
                pos.ctx == old(pos).ctx,
                pos.undo_stack@ == old(pos).undo_stack@,
                playable(b),
                us == b.side,
                pt != PieceType::NoPiece,
                0 <= low <= 64,
                forall|s: int| #[trigger] on(all, s) <==> valid(s) && b.squares[s] == Some((us, pt)),
                forall|s: int| #[trigger] on(bb, s) <==> on(all, s) && s >= low,
                list@ == before + captures_below(b, pt, low),
            decreases bb,
        {
            let ghost rest = bb;
            let from = pop_lsb(&mut bb);
            let ghost held = list@;
            proof {
                assert(on(all, from as int));
                assert forall|s: int| low <= s < from implies #[trigger] b.squares[s] != Some((us, pt)) by {
                    if b.squares[s] == Some((us, pt)) {
                        assert(on(all, s));
                        assert(on(rest, s));
                    }
                }
                captures_skip(b, pt, low, from as int);
            }
            if pt == PieceType::Pawn {
                push_pawn_captures(pos, from, true, list);
                push_pawn_captures(pos, from, false, list);
            } else {
                push_piece_captures(pos, pt, from, list);
            }
            proof {
                assert(list@ =~= held + captures_from(b, pt, from as int));
                assert(list@ =~= before + (captures_below(b, pt, from as int) + captures_from(
                    b,
                    pt,
                    from as int,
                )));
                low = from + 1;
            }
        }
        proof {
            assert forall|s: int| low <= s < 64 implies #[trigger] b.squares[s] != Some((us, pt)) by {
                if b.squares[s] == Some((us, pt)) {
                    assert(on(all, s));
                    assert(!on(0u64, s));
                }
            }
            captures_skip(b, pt, low, 64);
            assert(list@ =~= base + (captures_of_first(b, i as int) + captures_below(b, pt, 64)));
        }
        i += 1;
    }
}

proof fn takes_listed(b: Board, pt: PieceType, from: int, to: int, n: int)
    requires
        0 <= to < n,
        takes(b, pt, from, to),
    ensures
        takes_below(b, pt, from, n).contains(packed(capture_parts(b, pt, from, to))),
    decreases n,
{
    let l = takes_below(b, pt, from, n);
    if to == n - 1 {
        assert(l[l.len() - 1] == packed(capture_parts(b, pt, from, to)));
    } else {
        takes_listed(b, pt, from, to, n - 1);
        let r = takes_below(b, pt, from, n - 1);
        let m = packed(capture_parts(b, pt, from, to));
        let i = choose|i: int| 0 <= i < r.len() && r[i] == m;
        assert(l[i] == m);
    }
}

pub proof fn captures_listed(b: Board, pt: PieceType, from: int, m: Move, n: int)
    requires
        0 <= from < n,
        b.squares[from] == Some((b.side, pt)),
        captures_from(b, pt, from).contains(m),
    ensures
        captures_below(b, pt, n).contains(m),
    decreases n,
{
    let l = captures_below(b, pt, n);
    let r = captures_below(b, pt, n - 1);
    if from == n - 1 {
        let c = captures_from(b, pt, from);
        let i = choose|i: int| 0 <= i < c.len() && c[i] == m;
        assert(l[r.len() + i] == m);
    } else {
        captures_listed(b, pt, from, m, n - 1);
        let i = choose|i: int| 0 <= i < r.len() && r[i] == m;
        assert(l[i] == m);
    }
}

pub proof fn type_listed(b: Board, k: int, m: Move, n: int)
    requires
        0 <= k < n,
        captures_below(b, capture_order(k), 64).contains(m),
    ensures
        captures_of_first(b, n).contains(m),
    decreases n,
{
    let l = captures_of_first(b, n);
    let r = captures_of_first(b, n - 1);
    if k == n - 1 {
        let c = captures_below(b, capture_order(k), 64);
        let i = choose|i: int| 0 <= i < c.len() && c[i] == m;
        assert(l[r.len() + i] == m);
    } else {
        type_listed(b, k, m, n - 1);
        let i = choose|i: int| 0 <= i < r.len() && r[i] == m;
        assert(l[i] == m);
    }
}

/// The place of a type in the order of captures.
spec fn order_of(pt: PieceType) -> int {
    match pt {
        PieceType::King => 0,
        PieceType::Knight => 1,
        PieceType::Bishop => 2,
        PieceType::Rook => 3,
        PieceType::Queen => 4,
        _ => 5,
    }
}

/// No legal capture is missing from the captures for quiescence.
pub proof fn legal_captures_listed(b: Board, m: Move)
    requires
        playable(b),
        legal(b, m),
        m.parts().flag.captures(),
    ensures
        qsearch_captures(b).contains(m),
{
    let p = m.parts();
    let pt = p.piece;
    let k = order_of(pt);
    assert(capture_order(k) == pt);
    pseudo_fits(b, p);
    if pt == PieceType::Pawn {
        let df = file(p.to) - file(p.from);
        let one = pawn_takes(b, p.from, df);
        let r = rank(p.from) + if b.side == Color::White {
            1int
        } else {
            -1int
        };
        assert(at(r, file(p.from) + df) == p.to);
        let last = r == promo_rank(b.side);
        if p.flag == MoveFlag::EpCapture {
            assert(one[0] == m);
        } else {
            assert(p.flag.promotes() <==> last);
            if last {
                let i = match p.flag.promotes_to() {
                    PieceType::Queen => 0int,
                    PieceType::Rook => 1int,
                    PieceType::Bishop => 2int,
                    _ => 3int,
                };
                assert(one[i] == m);
            } else {
                assert(one[0] == m);
            }
        }
        assert(one.contains(m));
        let i = choose|i: int| 0 <= i < one.len() && one[i] == m;
        let all = captures_from(b, pt, p.from);
        if df == 1 {
            assert(all[i] == m);
        } else {
            assert(all[pawn_takes(b, p.from, 1).len() + i] == m);
        }
    } else {
        assert(p == capture_parts(b, pt, p.from, p.to));
        takes_listed(b, pt, p.from, p.to, 64);
    }
    captures_listed(b, pt, p.from, m, 64);
    type_listed(b, k, m, 6);
}

} // verus!
