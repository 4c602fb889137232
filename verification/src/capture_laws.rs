//! What holds of the captures for quiescence as a list.
use vstd::prelude::*;
use crate::captures::{
    capture_order, capture_parts, captures_below, captures_from, captures_listed,
    captures_of_first, pawn_takes, qsearch_captures, takes, takes_below, type_listed,
};
use crate::geometry::{file, rank, valid};
use crate::moves::{Move, MoveFlag, MoveParts, packed, packed_parts};
use crate::pieces::{Color, PieceType};
use crate::rules::{Board, at, king_safe, promo_rank, pseudo_legal};

verus! {

/// A capture that follows the rules of movement; one by the king leaves it safe.
pub open spec fn sound_capture(b: Board, m: Move) -> bool {
    let p = m.parts();
    &&& m.wf()
    &&& m == packed(p)
    &&& p.flag.captures()
    &&& pseudo_legal(b, p)
    &&& p.piece == PieceType::King ==> king_safe(b, p)
}

/// All are sound captures of the given piece from the given square.
spec fn sound_from(b: Board, l: Seq<Move>, pt: PieceType, from: int) -> bool {
    &&& l.no_duplicates()
    &&& forall|i: int|
        0 <= i < l.len() ==> sound_capture(b, #[trigger] l[i]) && l[i].parts().piece == pt
            && l[i].parts().from == from
}

proof fn takes_sound(b: Board, pt: PieceType, from: int, n: int)
    requires
        0 <= n <= 64,
        valid(from),
        b.squares[from] == Some((b.side, pt)),
        pt != PieceType::Pawn,
        pt != PieceType::NoPiece,
    ensures
        sound_from(b, takes_below(b, pt, from, n), pt, from),
        forall|i: int|
            0 <= i < takes_below(b, pt, from, n).len() ==> (#[trigger] takes_below(
                b,
                pt,
                from,
                n,
            )[i]).parts().to < n,
    decreases n,
{
    if n > 0 {
        takes_sound(b, pt, from, n - 1);
        if takes(b, pt, from, n - 1) {
            let p = capture_parts(b, pt, from, n - 1);
            packed_parts(p);
            let l = takes_below(b, pt, from, n - 1);
            let r = l.push(packed(p));
            assert forall|i: int| 0 <= i < r.len() implies sound_capture(b, #[trigger] r[i])
                && r[i].parts().piece == pt && r[i].parts().from == from && r[i].parts().to < n by {
                if i < l.len() {
                    assert(r[i] == l[i]);
                } else {
                    assert(r[i] == packed(p));
                    assert(pseudo_legal(b, p));
                }
            }
            assert forall|i: int, j: int| 0 <= i < r.len() && 0 <= j < r.len() && i
                != j implies r[i] != r[j] by {
                if i < l.len() && j < l.len() {
                    assert(l[i] != l[j]);
                } else if i < l.len() {
                    assert(l[i].parts().to < n - 1);
                } else {
                    assert(l[j].parts().to < n - 1);
                }
            }
        }
    }
}

proof fn pawn_takes_sound(b: Board, from: int, df: int)
    requires
        valid(from),
        b.squares[from] == Some((b.side, PieceType::Pawn)),
        df == 1 || df == -1,
    ensures
        sound_from(b, pawn_takes(b, from, df), PieceType::Pawn, from),
        forall|i: int|
            0 <= i < pawn_takes(b, from, df).len() ==> file(
                (#[trigger] pawn_takes(b, from, df)[i]).parts().to,
            ) == file(from) + df,
{
    let r = rank(from) + if b.side == Color::White {
        1int
    } else {
        -1int
    };
    let f = file(from) + df;
    let to = at(r, f);
    let l = pawn_takes(b, from, df);
    if 0 <= r < 8 && 0 <= f < 8 {
        assert(rank(to) == r && file(to) == f && valid(to));
        let captured = match b.squares[to] {
            Some((_, pt)) => pt,
            None => PieceType::Pawn,
        };
        let part = |flag: MoveFlag|
            MoveParts { from, to, flag, piece: PieceType::Pawn, captured };
        packed_parts(part(MoveFlag::PromoCaptureQ));
        packed_parts(part(MoveFlag::PromoCaptureR));
        packed_parts(part(MoveFlag::PromoCaptureB));
        packed_parts(part(MoveFlag::PromoCaptureN));
        packed_parts(part(MoveFlag::Capture));
        packed_parts(part(MoveFlag::EpCapture));
        assert(r == promo_rank(b.side) <==> rank(to) == promo_rank(b.side));
        assert forall|i: int| 0 <= i < l.len() implies sound_capture(b, #[trigger] l[i])
            && l[i].parts().piece == PieceType::Pawn && l[i].parts().from == from
            && l[i].parts().to == to by {}
        assert forall|i: int, j: int| 0 <= i < l.len() && 0 <= j < l.len() && i != j implies l[i]
            != l[j] by {
            assert(l[i].parts().flag != l[j].parts().flag);
        }
    }
}

proof fn from_sound(b: Board, pt: PieceType, from: int)
    requires
        valid(from),
        b.squares[from] == Some((b.side, pt)),
        pt != PieceType::NoPiece,
    ensures
        sound_from(b, captures_from(b, pt, from), pt, from),
{
    if pt == PieceType::Pawn {
        pawn_takes_sound(b, from, 1);
        pawn_takes_sound(b, from, -1);
        let (x, y) = (pawn_takes(b, from, 1), pawn_takes(b, from, -1));
        let l = x + y;
        assert forall|i: int| 0 <= i < l.len() implies sound_capture(b, #[trigger] l[i])
            && l[i].parts().piece == pt && l[i].parts().from == from by {
            if i < x.len() {
                assert(l[i] == x[i]);
            } else {
                assert(l[i] == y[i - x.len()]);
            }
        }
        assert forall|i: int, j: int| 0 <= i < l.len() && 0 <= j < l.len() && i != j implies l[i]
            != l[j] by {
            if i < x.len() && j < x.len() {
                assert(x[i] != x[j]);
            } else if i >= x.len() && j >= x.len() {
                assert(y[i - x.len()] != y[j - x.len()]);
            } else if i < x.len() {
                assert(file(x[i].parts().to) != file(y[j - x.len()].parts().to));
            } else {
                assert(file(x[j].parts().to) != file(y[i - x.len()].parts().to));
            }
        }
    } else {
        takes_sound(b, pt, from, 64);
    }
}

proof fn below_sound(b: Board, pt: PieceType, n: int)
    requires
        0 <= n <= 64,
        pt != PieceType::NoPiece,
    ensures
        captures_below(b, pt, n).no_duplicates(),
        forall|i: int|
            0 <= i < captures_below(b, pt, n).len() ==> sound_capture(
                b,
                #[trigger] captures_below(b, pt, n)[i],
            ) && captures_below(b, pt, n)[i].parts().piece == pt && captures_below(
                b,
                pt,
                n,
            )[i].parts().from < n,
    decreases n,
{
    if n > 0 {
        below_sound(b, pt, n - 1);
        if b.squares[n - 1] == Some((b.side, pt)) {
            from_sound(b, pt, n - 1);
            let (x, y) = (captures_below(b, pt, n - 1), captures_from(b, pt, n - 1));
            let l = x + y;
            assert forall|i: int| 0 <= i < l.len() implies sound_capture(b, #[trigger] l[i])
                && l[i].parts().piece == pt && l[i].parts().from < n by {
                if i < x.len() {
                    assert(l[i] == x[i]);
                } else {
                    assert(l[i] == y[i - x.len()]);
                }
            }
            assert forall|i: int, j: int| 0 <= i < l.len() && 0 <= j < l.len() && i
                != j implies l[i] != l[j] by {
                if i < x.len() && j < x.len() {
                    assert(x[i] != x[j]);
                } else if i >= x.len() && j >= x.len() {
                    assert(y[i - x.len()] != y[j - x.len()]);
                } else if i < x.len() {
                    assert(x[i].parts().from < n - 1 && y[j - x.len()].parts().from == n - 1);
                } else {
                    assert(x[j].parts().from < n - 1 && y[i - x.len()].parts().from == n - 1);
                }
            }
        }
    }
}

proof fn first_sound(b: Board, n: int)
    requires
        0 <= n <= 6,
    ensures
        captures_of_first(b, n).no_duplicates(),
        forall|i: int|
            0 <= i < captures_of_first(b, n).len() ==> sound_capture(
                b,
                #[trigger] captures_of_first(b, n)[i],
            ) && exists|k: int|
                0 <= k < n && captures_of_first(b, n)[i].parts().piece == #[trigger] capture_order(
                    k,
                ),
    decreases n,
{
    if n > 0 {
        first_sound(b, n - 1);
        let pt = capture_order(n - 1);
        below_sound(b, pt, 64);
        let (x, y) = (captures_of_first(b, n - 1), captures_below(b, pt, 64));
        let l = x + y;
        assert forall|i: int| 0 <= i < l.len() implies sound_capture(b, #[trigger] l[i]) && exists|
            k: int,
        |
            0 <= k < n && l[i].parts().piece == #[trigger] capture_order(k) by {
            if i < x.len() {
                assert(l[i] == x[i]);
                let k = choose|k: int|
                    0 <= k < n - 1 && x[i].parts().piece == #[trigger] capture_order(k);
                assert(l[i].parts().piece == capture_order(k));
            } else {
                assert(l[i] == y[i - x.len()]);
                assert(l[i].parts().piece == capture_order(n - 1));
            }
        }
        assert forall|i: int, j: int| 0 <= i < l.len() && 0 <= j < l.len() && i != j implies l[i]
            != l[j] by {
            if i < x.len() && j < x.len() {
                assert(x[i] != x[j]);
            } else if i >= x.len() && j >= x.len() {
                assert(y[i - x.len()] != y[j - x.len()]);
            } else if i < x.len() {
                let k = choose|k: int|
                    0 <= k < n - 1 && x[i].parts().piece == #[trigger] capture_order(k);
                assert(y[j - x.len()].parts().piece == pt);
            } else {
                let k = choose|k: int|
                    0 <= k < n - 1 && x[j].parts().piece == #[trigger] capture_order(k);
                assert(y[i - x.len()].parts().piece == pt);
            }
        }
    }
}

/// Each of the captures for quiescence follows the rules of movement, the king
/// never captures into check, and none occurs twice.
pub proof fn listed_captures_are_sound(b: Board)
    ensures
        qsearch_captures(b).no_duplicates(),
        forall|i: int|
            0 <= i < qsearch_captures(b).len() ==> sound_capture(
                b,
                #[trigger] qsearch_captures(b)[i],
            ),
{
    first_sound(b, 6);
}

/// A pawn that captures on the last rank does so with all four promotions.
pub proof fn promotions_come_together(b: Board, m: Move, flag: MoveFlag)
    requires
        qsearch_captures(b).contains(m),
        m.parts().flag.promotes(),
        flag.promotes(),
        flag.captures(),
    ensures
        qsearch_captures(b).contains(packed(MoveParts { flag, ..m.parts() })),
{
    let l = qsearch_captures(b);
    let i = choose|i: int| 0 <= i < l.len() && l[i] == m;
    listed_captures_are_sound(b);
    assert(sound_capture(b, l[i]));
    let p = m.parts();
    let q = MoveParts { flag, ..p };
    let df = file(p.to) - file(p.from);
    let one = pawn_takes(b, p.from, df);
    let r = rank(p.from) + if b.side == Color::White {
        1int
    } else {
        -1int
    };
    assert(at(r, file(p.from) + df) == p.to);
    assert(one.contains(packed(q))) by {
        let k = match flag.promotes_to() {
            PieceType::Queen => 0int,
            PieceType::Rook => 1int,
            PieceType::Bishop => 2int,
            _ => 3int,
        };
        assert(one[k] == packed(q));
    }
    let k = choose|k: int| 0 <= k < one.len() && one[k] == packed(q);
    let all = captures_from(b, PieceType::Pawn, p.from);
    if df == 1 {
        assert(all[k] == packed(q));
    } else {
        assert(all[pawn_takes(b, p.from, 1).len() + k] == packed(q));
    }
    captures_listed(b, PieceType::Pawn, p.from, packed(q), 64);
    assert(capture_order(5) == PieceType::Pawn);
    type_listed(b, 5, packed(q), 6);
}

} // verus!
