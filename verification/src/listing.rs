//! The order in which moves are listed, and what it means for a list to hold
//! all legal moves in that order.
//!
//! Every move has a key. A list of moves whose keys rise strictly is fixed by
//! the set of its members, so the list of all legal moves is unique.
use vstd::prelude::*;
use crate::moves::{Move, MoveFlag, MoveParts, packed};
use crate::pieces::PieceType;
use crate::rules::{
    Board, is_castle, legal, pawn_captures, pawn_double_pushes, pawn_pushes, pawn_takes_ep,
    pseudo_legal,
};

verus! {

/// King steps come first, then pawns, knights, bishops, rooks, queens, and
/// castling last.
pub open spec fn phase(p: MoveParts) -> int {
    if p.piece == PieceType::King {
        if is_castle(p) {
            6
        } else {
            0
        }
    } else {
        1 + p.piece.index()
    }
}

/// Kinds of pawn move in the order in which each pawn makes them; kingside
/// castling before queenside.
pub open spec fn kind(p: MoveParts) -> int {
    if p.piece == PieceType::King {
        if p.flag == MoveFlag::QueenCastle {
            1
        } else {
            0
        }
    } else if p.piece != PieceType::Pawn {
        0
    } else if p.flag == MoveFlag::EpCapture {
        3
    } else if p.flag.captures() {
        2
    } else if p.flag == MoveFlag::DoublePawnPush {
        1
    } else {
        0
    }
}

/// Queen, rook, bishop, knight.
pub open spec fn promotion_rank(p: MoveParts) -> int {
    match p.flag.promotes_to() {
        PieceType::Rook => 1,
        PieceType::Bishop => 2,
        PieceType::Knight => 3,
        _ => 0,
    }
}

/// The key of a move from these four numbers.
pub open spec fn key_of(phase: int, from: int, kind: int, to: int, promotion: int) -> int {
    1_000_000 * phase + 10_000 * from + 1_000 * kind + 10 * to + promotion
}

pub open spec fn move_key(p: MoveParts) -> int {
    key_of(phase(p), p.from, kind(p), p.to, promotion_rank(p))
}

/// The keys of a list rise strictly.
pub open spec fn rising(l: Seq<Move>) -> bool {
    forall|i: int, j: int|
        0 <= i < j < l.len() ==> move_key((#[trigger] l[i]).parts()) < move_key(
            (#[trigger] l[j]).parts(),
        )
}

/// The list holds, in order, the legal moves with keys below `bound`.
pub open spec fn listed(b: Board, l: Seq<Move>, bound: int) -> bool {
    &&& rising(l)
    &&& forall|m: Move| #[trigger] l.contains(m) <==> legal(b, m) && move_key(m.parts()) < bound
}

/// The list holds all legal moves, in order.
pub open spec fn lists_all(b: Board, l: Seq<Move>) -> bool {
    &&& rising(l)
    &&& forall|m: Move| #[trigger] l.contains(m) <==> legal(b, m)
}

/// All legal moves of a board, in order.
pub open spec fn legal_moves(b: Board) -> Seq<Move> {
    choose|l: Seq<Move>| lists_all(b, l)
}

/// Lists with rising keys and the same members are the same list.
pub proof fn rising_unique(a: Seq<Move>, c: Seq<Move>)
    requires
        rising(a),
        rising(c),
        forall|m: Move| #[trigger] a.contains(m) <==> c.contains(m),
    ensures
        a == c,
    decreases a.len(),
{
    if a.len() == 0 {
        if c.len() > 0 {
            assert(c.contains(c[0]));
            assert(a.contains(c[0]));
        }
        assert(a =~= c);
    } else {
        assert(a.contains(a[0]));
        let j = choose|j: int| 0 <= j < c.len() && c[j] == a[0];
        assert(c.contains(c[0]));
        assert(a.contains(c[0]));
        let i = choose|i: int| 0 <= i < a.len() && a[i] == c[0];
        if j != 0 {
            assert(move_key(c[0].parts()) < move_key(c[j].parts()));
            if i != 0 {
                assert(move_key(a[0].parts()) < move_key(a[i].parts()));
            }
        }
        assert(a[0] == c[0]);
        let a1 = a.skip(1);
        let c1 = c.skip(1);
        assert(rising(a1));
        assert(rising(c1));
        assert forall|m: Move| #[trigger] a1.contains(m) <==> c1.contains(m) by {
            rest_members(a, m);
            rest_members(c, m);
        }
        rising_unique(a1, c1);
        assert(a =~= seq![a[0]] + a1);
        assert(c =~= seq![c[0]] + c1);
    }
}

/// The members of a rising list behind its first.
proof fn rest_members(a: Seq<Move>, m: Move)
    requires
        rising(a),
        a.len() > 0,
    ensures
        a.skip(1).contains(m) <==> a.contains(m) && m != a[0],
{
    let a1 = a.skip(1);
    if a1.contains(m) {
        let i = choose|i: int| 0 <= i < a1.len() && a1[i] == m;
        assert(a[i + 1] == m);
        assert(move_key(a[0].parts()) < move_key(a[i + 1].parts()));
    }
    if a.contains(m) && m != a[0] {
        let i = choose|i: int| 0 <= i < a.len() && a[i] == m;
        assert(a1[i - 1] == m);
    }
}

/// A list of all legal moves is the list of all legal moves.
pub proof fn lists_all_unique(b: Board, l: Seq<Move>)
    requires
        lists_all(b, l),
    ensures
        l == legal_moves(b),
{
    let c = legal_moves(b);
    assert(lists_all(b, c));
    rising_unique(l, c);
}

/// Appending the next legal move.
pub proof fn list_next(b: Board, l: Seq<Move>, m: Move)
    requires
        listed(b, l, move_key(m.parts())),
        legal(b, m),
    ensures
        listed(b, l.push(m), move_key(m.parts()) + 1),
{
    let l2 = l.push(m);
    assert forall|i: int, j: int| 0 <= i < j < l2.len() implies move_key(
        (#[trigger] l2[i]).parts(),
    ) < move_key((#[trigger] l2[j]).parts()) by {
        assert(l2[i] == l[i]);
        assert(l.contains(l[i]));
        if j < l.len() {
            assert(l2[j] == l[j]);
        }
    }
    assert forall|n: Move| #[trigger] l2.contains(n) <==> legal(b, n) && move_key(n.parts())
        < move_key(m.parts()) + 1 by {
        if l2.contains(n) {
            let i = choose|i: int| 0 <= i < l2.len() && l2[i] == n;
            if i < l.len() {
                assert(l[i] == n);
                assert(l.contains(n));
            }
        }
        if legal(b, n) && move_key(n.parts()) <= move_key(m.parts()) {
            if move_key(n.parts()) < move_key(m.parts()) {
                assert(l.contains(n));
                let i = choose|i: int| 0 <= i < l.len() && l[i] == n;
                assert(l2[i] == n);
            } else {
                key_injective(b, m.parts(), n.parts());
                assert(l2[l.len() as int] == m);
            }
        }
    }
}

/// Keys compare as their parts do, one after the other.
pub proof fn key_order(b: Board, m: Move, ph: int, from: int, kd: int, to: int, pr: int)
    requires
        legal(b, m),
        0 <= from <= 64,
        0 <= kd <= 4,
        0 <= to <= 64,
        0 <= pr <= 4,
    ensures
        ({
            let p = m.parts();
            move_key(p) >= key_of(ph, from, kd, to, pr) <==> (phase(p) > ph || (phase(p) == ph && (
            p.from > from || (p.from == from && (kind(p) > kd || (kind(p) == kd && (p.to > to || (
            p.to == to && promotion_rank(p) >= pr))))))))
        }),
{
    legal_ranges(b, m);
}

/// No two moves that follow the rules of movement have the same key.
pub proof fn key_injective(b: Board, p: MoveParts, q: MoveParts)
    requires
        pseudo_legal(b, p),
        pseudo_legal(b, q),
        move_key(p) == move_key(q),
    ensures
        p == q,
{
    assert(0 <= kind(p) < 4 && 0 <= kind(q) < 4);
    assert(0 <= promotion_rank(p) < 4 && 0 <= promotion_rank(q) < 4);
    assert(0 <= phase(p) < 7 && 0 <= phase(q) < 7);
    assert(phase(p) == phase(q));
    assert(p.from == q.from);
    assert(kind(p) == kind(q));
    assert(p.to == q.to);
    assert(promotion_rank(p) == promotion_rank(q));
    assert(p.piece == q.piece);
    if p.piece == PieceType::Pawn {
        pawn_move_forms(b, p);
        pawn_move_forms(b, q);
    }
    assert(p.flag == q.flag);
    assert(p.captured == q.captured);
}

/// The kind of a pawn move tells which rule it follows.
proof fn pawn_move_forms(b: Board, p: MoveParts)
    requires
        pseudo_legal(b, p),
        p.piece == PieceType::Pawn,
    ensures
        kind(p) == 0 <==> pawn_pushes(b, p),
        kind(p) == 1 <==> pawn_double_pushes(b, p),
        kind(p) == 2 <==> pawn_captures(b, p),
        kind(p) == 3 <==> pawn_takes_ep(b, p),
{
}

/// Going on where there is no legal move to append.
pub proof fn list_skip(b: Board, l: Seq<Move>, bound: int, next_bound: int)
    requires
        listed(b, l, bound),
        bound <= next_bound,
        forall|n: Move| #[trigger] legal(b, n) ==> !(bound <= move_key(n.parts()) < next_bound),
    ensures
        listed(b, l, next_bound),
{
    assert forall|n: Move| #[trigger] l.contains(n) <==> legal(b, n) && move_key(n.parts())
        < next_bound by {
        if legal(b, n) {
            assert(!(bound <= move_key(n.parts()) < next_bound));
        }
    }
}

proof fn listing_below(b: Board, bound: int) -> (l: Seq<Move>)
    requires
        0 <= bound,
    ensures
        listed(b, l, bound),
    decreases bound,
{
    if bound == 0 {
        let l = Seq::<Move>::empty();
        assert forall|m: Move| #[trigger] l.contains(m) <==> legal(b, m) && move_key(m.parts())
            < 0 by {
            if legal(b, m) {
                legal_ranges(b, m);
            }
        }
        l
    } else {
        let l = listing_below(b, bound - 1);
        if exists|m: Move| #[trigger] legal(b, m) && move_key(m.parts()) == bound - 1 {
            let m = choose|m: Move| #[trigger] legal(b, m) && move_key(m.parts()) == bound - 1;
            list_next(b, l, m);
            l.push(m)
        } else {
            list_skip(b, l, bound - 1, bound);
            l
        }
    }
}

/// Every board has its list of legal moves: each of them once, in order, and
/// nothing else.
pub proof fn moves_are_listed(b: Board)
    ensures
        lists_all(b, legal_moves(b)),
{
    let l = listing_below(b, 7_000_000);
    assert forall|m: Move| #[trigger] l.contains(m) <==> legal(b, m) by {
        if legal(b, m) {
            legal_ranges(b, m);
        }
    }
    assert(lists_all(b, l));
}

/// The fields of a legal move are in range.
pub proof fn legal_ranges(b: Board, m: Move)
    requires
        legal(b, m),
    ensures
        0 <= phase(m.parts()) < 7,
        0 <= m.parts().from < 64,
        0 <= m.parts().to < 64,
        0 <= kind(m.parts()) < 4,
        0 <= promotion_rank(m.parts()) < 4,
        0 <= move_key(m.parts()) < 7_000_000,
{
}

/// Behind `base` the list holds, in order, the legal moves with keys below
/// `bound`.
pub open spec fn grown(list: Seq<Move>, base: Seq<Move>, b: Board, bound: int) -> bool {
    &&& list.len() >= base.len()
    &&& list.take(base.len() as int) == base
    &&& listed(b, list.skip(base.len() as int), bound)
}

/// No legal move has its key between the bounds.
pub open spec fn none_between(b: Board, bound: int, next_bound: int) -> bool {
    forall|n: Move| #[trigger] legal(b, n) ==> !(bound <= move_key(n.parts()) < next_bound)
}

pub proof fn grown_skip(
    list: Seq<Move>,
    base: Seq<Move>,
    b: Board,
    bound: int,
    next_bound: int,
)
    requires
        grown(list, base, b, bound),
        bound <= next_bound,
        none_between(b, bound, next_bound),
    ensures
        grown(list, base, b, next_bound),
{
    list_skip(b, list.skip(base.len() as int), bound, next_bound);
}

/// Trying one move: if it is legal it is appended, and either way the list is
/// complete up to it.
pub proof fn grown_try(list: Seq<Move>, base: Seq<Move>, b: Board, m: Move)
    requires
        grown(list, base, b, move_key(m.parts())),
        m == packed(m.parts()),
        m.wf(),
        pseudo_legal(b, m.parts()),
    ensures
        legal(b, m) ==> grown(list.push(m), base, b, move_key(m.parts()) + 1),
        !legal(b, m) ==> grown(list, base, b, move_key(m.parts()) + 1),
{
    if legal(b, m) {
        list_next(b, list.skip(base.len() as int), m);
        assert(list.push(m).skip(base.len() as int) =~= list.skip(base.len() as int).push(m));
        assert(list.push(m).take(base.len() as int) =~= list.take(base.len() as int));
    } else {
        assert forall|n: Move| #[trigger] legal(b, n) implies !(move_key(m.parts()) <= move_key(
            n.parts(),
        ) < move_key(m.parts()) + 1) by {
            if move_key(n.parts()) == move_key(m.parts()) {
                key_injective(b, m.parts(), n.parts());
            }
        }
        grown_skip(list, base, b, move_key(m.parts()), move_key(m.parts()) + 1);
    }
}

pub proof fn grown_start(base: Seq<Move>, b: Board)
    ensures
        grown(base, base, b, 0),
{
    assert(base.take(base.len() as int) =~= base);
    let l = base.skip(base.len() as int);
    assert forall|m: Move| #[trigger] l.contains(m) <==> legal(b, m) && move_key(m.parts()) < 0 by {
        if legal(b, m) {
            legal_ranges(b, m);
        }
    }
}

pub proof fn grown_end(list: Seq<Move>, base: Seq<Move>, b: Board)
    requires
        grown(list, base, b, 7_000_000),
    ensures
        list == base + legal_moves(b),
        lists_all(b, legal_moves(b)),
{
    let l = list.skip(base.len() as int);
    assert forall|m: Move| #[trigger] l.contains(m) <==> legal(b, m) by {
        if legal(b, m) {
            legal_ranges(b, m);
        }
    }
    lists_all_unique(b, l);
    assert(list =~= base + l);
}

} // verus!
