//! The order in which moves are tried: the table's move, winning captures,
//! killers, the countermove, checks, then quiet moves by history, and losing
//! captures last.
use vstd::prelude::*;
use crate::checks::{CheckingSquares, checked_by_piece, gives_check};
use crate::exchange::{exchange_value, see};
use crate::moves::{Move, MoveList};
use crate::position::Position;
use crate::rules::{Board, fits};
use crate::search::thread_state::rows_i32;
use vstd::seq_lib::lemma_multiset_commutative;

verus! {

pub const WINNING_CAPTURE_BASE: i32 = 500_000;

pub const KILLER_1_SCORE: i32 = 90_000;

pub const KILLER_2_SCORE: i32 = 89_000;

pub const COUNTERMOVE_SCORE: i32 = 88_000;

pub const TT_MOVE_SCORE: i32 = 1_000_000;

pub const CHECK_SCORE: i32 = 50_000;

/// What ordering knows at a node.
pub struct Hints {
    pub tt_move: Move,
    pub killers: Seq<Move>,
    pub countermove: Move,
    pub history: Seq<Seq<i32>>,
}

/// The ordering score of a move.
pub open spec fn order_score(b: Board, m: Move, h: Hints) -> i32 {
    let p = m.parts();
    if h.tt_move != Move::null() && m == h.tt_move {
        TT_MOVE_SCORE
    } else if p.flag.captures() {
        if exchange_value(b, p) >= 0 {
            (WINNING_CAPTURE_BASE + exchange_value(b, p)) as i32
        } else {
            exchange_value(b, p) as i32
        }
    } else if m == h.killers[0] {
        KILLER_1_SCORE
    } else if m == h.killers[1] {
        KILLER_2_SCORE
    } else if h.countermove != Move::null() && m == h.countermove {
        COUNTERMOVE_SCORE
    } else if checked_by_piece(b, p) {
        CHECK_SCORE
    } else {
        h.history[p.from][p.to]
    }
}

pub fn score_move(
    pos: &Position,
    m: Move,
    tt_move: Move,
    killers: &[Move; 2],
    countermove: Move,
    history: &[[i32; 64]; 64],
    check_ctx: &CheckingSquares,
) -> (r: i32)
    requires
        pos.wf(),
        m.wf(),
        fits(pos@, m.parts()),
        check_ctx.describes(pos@, pos.side_to_move),
    ensures
        r == order_score(
            pos@,
            m,
            (Hints { tt_move, killers: killers@, countermove, history: rows_i32(*history) }),
        ),
{
    if !tt_move.is_null() && m == tt_move {
        return TT_MOVE_SCORE;
    }
    if m.flag().is_capture() {
        let see_val = see(pos, m);
        if see_val >= 0 {
            return WINNING_CAPTURE_BASE + see_val;
        }
        return see_val;
    }
    if m == killers[0] {
        return KILLER_1_SCORE;
    }
    if m == killers[1] {
        return KILLER_2_SCORE;
    }
    if !countermove.is_null() && m == countermove {
        return COUNTERMOVE_SCORE;
    }
    if gives_check(pos, m, check_ctx) {
        return CHECK_SCORE;
    }
    history[m.from_sq() as usize][m.to_sq() as usize]
}

/// A move and its score.
pub type Scored = (i32, Move);

/// The first of the best among the first `n`.
pub open spec fn best_index(l: Seq<Scored>, n: int) -> int
    decreases n,
{
    if n <= 1 {
        0
    } else {
        let j = best_index(l, n - 1);
        if l[n - 1].0 > l[j].0 {
            n - 1
        } else {
            j
        }
    }
}

/// The list with the best move brought to the front by an exchange.
pub open spec fn best_first(l: Seq<Scored>) -> Seq<Scored> {
    let j = best_index(l, l.len() as int);
    l.update(j, l[0]).update(0, l[j])
}

/// What is left once the best move has been taken.
pub open spec fn rest_of(l: Seq<Scored>) -> Seq<Scored> {
    best_first(l).skip(1)
}

pub proof fn best_index_range(l: Seq<Scored>, n: int)
    requires
        1 <= n <= l.len(),
    ensures
        0 <= best_index(l, n) < n,
        forall|i: int| 0 <= i < n ==> (#[trigger] l[i]).0 <= l[best_index(l, n)].0,
    decreases n,
{
    if n > 1 {
        best_index_range(l, n - 1);
    }
}

/// Moves are handed out by falling score, each once: what is handed out scores
/// at least as high as all that is left, and together they are what was there.
pub proof fn handed_out_in_order(l: Seq<Scored>)
    requires
        l.len() > 0,
    ensures
        ({
            let x = l[best_index(l, l.len() as int)];
            &&& forall|i: int| 0 <= i < rest_of(l).len() ==> (#[trigger] rest_of(l)[i]).0 <= x.0
            &&& l.to_multiset() == rest_of(l).to_multiset().insert(x)
        }),
{
    let n = l.len() as int;
    best_index_range(l, n);
    let j = best_index(l, n);
    let x = l[j];
    let swapped = best_first(l);
    let rest = rest_of(l);
    assert forall|i: int| 0 <= i < rest.len() implies (#[trigger] rest[i]).0 <= x.0 by {
        assert(rest[i] == swapped[i + 1]);
        if i + 1 == j {
            assert(swapped[i + 1] == l[0]);
        } else {
            assert(swapped[i + 1] == l[i + 1]);
        }
    }
    broadcast use vstd::seq_lib::group_to_multiset_ensures;

    if j == 0 {
        assert(l =~= seq![x] + rest);
    } else {
        assert(rest =~= l.update(j, l[0]).skip(1));
        assert(l.update(j, l[0]) =~= seq![l[0]] + rest);
    }
    exchange_keeps_members(l, j);
    assert(swapped =~= seq![x] + rest);
    assert(seq![x] =~= Seq::<Scored>::empty().push(x));
    lemma_multiset_commutative(seq![x], rest);
    assert(swapped.to_multiset() =~= rest.to_multiset().insert(x));
}

/// Exchanging two places keeps the members.
pub proof fn exchange_keeps_members<A>(l: Seq<A>, j: int)
    requires
        0 <= j < l.len(),
    ensures
        l.update(j, l[0]).update(0, l[j]).to_multiset() == l.to_multiset(),
{
    broadcast use vstd::seq_lib::group_to_multiset_ensures;

    let a = l.update(j, l[0]);
    assert(l.update(j, l[0]).to_multiset() =~= l.to_multiset().insert(l[0]).remove(l[j]));
    assert(a.update(0, l[j]).to_multiset() =~= a.to_multiset().insert(l[j]).remove(a[0]));
    assert(a[0] == l[0]);
}

/// Moves with their scores.
pub open spec fn scored(b: Board, moves: Seq<Move>, h: Hints) -> Seq<Scored> {
    Seq::new(moves.len(), |i: int| (order_score(b, moves[i], h), moves[i]))
}

/// Hands out the moves of a list, best first, without sorting them all.
pub struct MoveOrderer {
    pub scores: Vec<i32>,
    pub next: usize,
}

/// One call of the orderer: it hands out the best of the moves that are left,
/// with the count of those before it, brings it to its place in the list, and
/// leaves the places before it alone; or there is nothing left to hand out.
pub open spec fn hands_out(
    old_orderer: MoveOrderer,
    old_list: MoveList,
    new_orderer: MoveOrderer,
    new_list: MoveList,
    r: Option<(usize, Move)>,
) -> bool {
    &&& new_orderer.wf(&new_list)
    &&& match r {
        None => {
            &&& old_orderer.remaining(&old_list).len() == 0
            &&& new_orderer == old_orderer
            &&& new_list == old_list
        },
        Some((idx, m)) => {
            let l = old_orderer.remaining(&old_list);
            &&& l.len() > 0
            &&& idx == old_orderer.next
            &&& m == l[best_index(l, l.len() as int)].1
            &&& new_orderer.remaining(&new_list) == rest_of(l)
            &&& new_orderer.next == old_orderer.next + 1
            &&& new_list@.len() == old_list@.len()
            &&& new_list@[idx as int] == m
            &&& new_list@.take(idx as int) == old_list@.take(idx as int)
        },
    }
}

impl MoveOrderer {
    pub open spec fn wf(&self, list: &MoveList) -> bool {
        self.scores@.len() == list@.len() && self.next <= self.scores@.len()
    }

    /// The moves that have not been handed out, with their scores.
    pub open spec fn remaining(&self, list: &MoveList) -> Seq<Scored> {
        Seq::new(
            (list@.len() - self.next) as nat,
            |i: int| (self.scores@[self.next + i], list@[self.next + i]),
        )
    }

    #[inline]
    pub fn new(
        pos: &Position,
        list: &MoveList,
        tt_move: Move,
        killers: &[Move; 2],
        countermove: Move,
        history: &[[i32; 64]; 64],
        check_ctx: &CheckingSquares,
    ) -> (r: Self)
        requires
            pos.wf(),
            check_ctx.describes(pos@, pos.side_to_move),
            forall|i: int|
                0 <= i < list@.len() ==> (#[trigger] list@[i]).wf() && fits(
                    pos@,
                    list@[i].parts(),
                ),
        ensures
            r.wf(list),
            r.next == 0,
            r.remaining(list) == scored(
                pos@,
                list@,
                (Hints { tt_move, killers: killers@, countermove, history: rows_i32(*history) }),
            ),
    {
        let ghost h = Hints {
            tt_move,
            killers: killers@,
            countermove,
            history: rows_i32(*history),
        };
        let mut scores: Vec<i32> = Vec::new();
        let n: usize = list.count();
        let mut i: usize = 0;
        while i < n
            invariant
                i <= n,
                n == list@.len(),
                pos.wf(),
                check_ctx.describes(pos@, pos.side_to_move),
                forall|k: int|
                    0 <= k < list@.len() ==> (#[trigger] list@[k]).wf() && fits(
                        pos@,
                        list@[k].parts(),
                    ),
                h == (Hints {
                    tt_move,
                    killers: killers@,
                    countermove,
                    history: rows_i32(*history),
                }),
                scores@.len() == i,
                forall|k: int| 0 <= k < i ==> #[trigger] scores@[k] == order_score(pos@, list@[k], h),
            decreases n - i,
        {
            let m = list.moves[i];
            assert(m == list@[i as int]);
            scores.push(score_move(pos, m, tt_move, killers, countermove, history, check_ctx));
            i += 1;
        }
        let r = MoveOrderer { scores, next: 0 };
        proof {
            assert(r.remaining(list) =~= scored(pos@, list@, h));
        }
        r
    }

    /// The next best move and how many came before it. What a whole row of calls
    /// hands out is stated in
    /// [`crate::search::selection::all_handed_out_once`].
    #[inline]
    pub fn next_move(&mut self, list: &mut MoveList) -> (r: Option<(usize, Move)>)
        requires
            old(self).wf(old(list)),
        ensures
            hands_out(*old(self), *old(list), *final(self), *final(list), r),
    {
        let len: usize = self.scores.len();
        if self.next >= len {
            return None;
        }
        let ghost l = self.remaining(list);
        let first: usize = self.next;
        let mut best_i: usize = first;
        let mut best_score: i32 = self.scores[first];
        let mut i: usize = first + 1;
        while i < len
            invariant
                first < i <= len,
                first <= best_i < i,
                len == self.scores@.len(),
                first == self.next,
                self.wf(list),
                l == self.remaining(list),
                best_score == self.scores@[best_i as int],
                best_i - first == best_index(l, i - first),
            decreases len - i,
        {
            if self.scores[i] > best_score {
                best_score = self.scores[i];
                best_i = i;
            }
            i += 1;
        }
        if best_i != first {
            let s: i32 = self.scores[first];
            self.scores[first] = best_score;
            self.scores[best_i] = s;
            let x = list.moves[first];
            let y = list.moves[best_i];
            list.moves[first] = y;
            list.moves[best_i] = x;
        }
        let m = list.moves[first];
        self.next = first + 1;
        proof {
            assert(self.remaining(list) =~= rest_of(l));
            assert(list@.take(first as int) =~= old(list)@.take(first as int));
        }
        Some((first, m))
    }
}

} // verus!
