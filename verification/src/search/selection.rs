//! What the move orderer hands out, from its first call to its last.
use vstd::prelude::*;
use crate::moves::{Move, MoveList};
use crate::rules::Board;
use crate::search::alphabeta::rest_len;
use crate::search::ordering::{
    Hints, MoveOrderer, Scored, best_first, best_index, best_index_range, exchange_keeps_members,
    hands_out, order_score, rest_of, scored,
};
use vstd::seq_lib::lemma_multiset_commutative;

verus! {

/// The moves in the order in which they are handed out.
pub open spec fn selected(l: Seq<Scored>) -> Seq<Scored>
    decreases l.len(),
    via selected_decreases
{
    if l.len() == 0 {
        seq![]
    } else {
        seq![l[best_index(l, l.len() as int)]] + selected(rest_of(l))
    }
}

#[via_fn]
proof fn selected_decreases(l: Seq<Scored>) {
    if l.len() > 0 {
        rest_len(l);
    }
}

/// The moves without their scores.
pub open spec fn moves_of(l: Seq<Scored>) -> Seq<Move> {
    l.map_values(|x: Scored| x.1)
}

/// The scores fall from move to move.
pub open spec fn scores_fall(l: Seq<Scored>) -> bool {
    forall|i: int, j: int|
        0 <= i <= j < l.len() ==> (#[trigger] l[i]).0 >= (#[trigger] l[j]).0
}

/// Taking the best move out.
proof fn one_taken(l: Seq<Scored>)
    requires
        l.len() > 0,
    ensures
        ({
            let x = l[best_index(l, l.len() as int)];
            let rest = rest_of(l);
            &&& rest.len() == l.len() - 1
            &&& forall|i: int| 0 <= i < rest.len() ==> l.contains(#[trigger] rest[i])
            &&& forall|i: int| 0 <= i < l.len() ==> (#[trigger] l[i]).0 <= x.0
            &&& (seq![x.1] + moves_of(rest)).to_multiset() == moves_of(l).to_multiset()
        }),
{
    let j = best_index(l, l.len() as int);
    best_index_range(l, l.len() as int);
    let rest = rest_of(l);
    let ms = moves_of(l);
    let front = best_first(l);
    assert forall|i: int| 0 <= i < rest.len() implies l.contains(#[trigger] rest[i]) by {
        assert(rest[i] == front[i + 1]);
        if i + 1 == j {
            assert(l[0] == rest[i]);
        } else {
            assert(l[i + 1] == rest[i]);
        }
    }
    exchange_keeps_members(ms, j);
    assert(seq![l[j].1] + moves_of(rest) =~= ms.update(j, ms[0]).update(0, ms[j]));
}

/// What is handed out is all that was there, by falling score.
pub proof fn selected_sorts(l: Seq<Scored>)
    ensures
        selected(l).len() == l.len(),
        scores_fall(selected(l)),
        moves_of(selected(l)).to_multiset() == moves_of(l).to_multiset(),
        forall|i: int| 0 <= i < l.len() ==> l.contains(#[trigger] selected(l)[i]),
    decreases l.len(),
{
    if l.len() == 0 {
        assert(moves_of(selected(l)) =~= moves_of(l));
    } else {
        one_taken(l);
        let x = l[best_index(l, l.len() as int)];
        best_index_range(l, l.len() as int);
        let rest = rest_of(l);
        selected_sorts(rest);
        let tail = selected(rest);
        let s = seq![x] + tail;
        assert forall|i: int| 0 <= i < l.len() implies l.contains(#[trigger] s[i]) by {
            if i > 0 {
                assert(s[i] == tail[i - 1]);
                assert(rest.contains(tail[i - 1]));
                let k = choose|k: int| 0 <= k < rest.len() && rest[k] == tail[i - 1];
                assert(l.contains(rest[k]));
            } else {
                assert(s[0] == x);
            }
        }
        assert forall|i: int, j: int| 0 <= i <= j < s.len() implies (#[trigger] s[i]).0 >= (
        #[trigger] s[j]).0 by {
            if i > 0 {
                assert(s[i] == tail[i - 1] && s[j] == tail[j - 1]);
            } else if j > 0 {
                assert(l.contains(s[j]));
                let k = choose|k: int| 0 <= k < l.len() && l[k] == s[j];
                assert(l[k].0 <= x.0);
            }
        }
        broadcast use vstd::seq_lib::group_to_multiset_ensures;

        let one = seq![x.1];
        assert(moves_of(s) =~= one + moves_of(tail));
        lemma_multiset_commutative(one, moves_of(tail));
        lemma_multiset_commutative(one, moves_of(rest));
        assert(moves_of(s).to_multiset() =~= (one + moves_of(rest)).to_multiset());
    }
}

/// Calls of `next_move` one after the other on the same list: call `k` leads
/// from orderer and list `k` to `k + 1`, and gives `results[k]`.
pub open spec fn calls(
    orderers: Seq<MoveOrderer>,
    lists: Seq<MoveList>,
    results: Seq<Option<(usize, Move)>>,
) -> bool {
    &&& orderers.len() == results.len() + 1
    &&& lists.len() == results.len() + 1
    &&& orderers[0].wf(&lists[0])
    &&& orderers[0].next == 0
    &&& forall|k: int|
        0 <= k < results.len() ==> hands_out(
            orderers[k],
            lists[k],
            orderers[k + 1],
            lists[k + 1],
            #[trigger] results[k],
        )
}

proof fn state_after(
    orderers: Seq<MoveOrderer>,
    lists: Seq<MoveList>,
    results: Seq<Option<(usize, Move)>>,
    k: int,
)
    requires
        calls(orderers, lists, results),
        0 <= k <= results.len(),
    ensures
        ({
            let all = selected(orderers[0].remaining(&lists[0]));
            let n = lists[0]@.len() as int;
            let done = if k < n {
                k
            } else {
                n
            };
            &&& orderers[k].wf(&lists[k])
            &&& orderers[k].next == done
            &&& lists[k]@.len() == n
            &&& lists[k]@.take(done) == moves_of(all).take(done)
            &&& selected(orderers[k].remaining(&lists[k])) == all.skip(done)
            &&& k > 0 ==> results[k - 1] == if k <= n {
                Some(((k - 1) as usize, all[k - 1].1))
            } else {
                None::<(usize, Move)>
            }
        }),
    decreases k,
{
    let start = orderers[0].remaining(&lists[0]);
    let all = selected(start);
    selected_sorts(start);
    let n = lists[0]@.len() as int;
    if k == 0 {
        assert(all.skip(0) =~= all);
        assert(lists[0]@.take(0) =~= moves_of(all).take(0));
    } else {
        state_after(orderers, lists, results, k - 1);
        let r = results[k - 1];
        assert(hands_out(orderers[k - 1], lists[k - 1], orderers[k], lists[k], r));
        let l = orderers[k - 1].remaining(&lists[k - 1]);
        if k <= n {
            assert(l.len() == n - (k - 1));
            assert(r is Some);
            let (idx, m) = r->0;
            let rest = selected(rest_of(l));
            assert(selected(l)[0] == l[best_index(l, l.len() as int)]);
            assert(all.skip(k - 1)[0] == all[k - 1]);
            assert(selected(l).skip(1) =~= rest);
            assert(all.skip(k - 1).skip(1) =~= all.skip(k));
            assert(m == all[k - 1].1);
            let before = lists[k - 1]@;
            let now = lists[k]@;
            assert(now.take(k) =~= now.take(k - 1).push(now[k - 1]));
            assert(moves_of(all).take(k) =~= moves_of(all).take(k - 1).push(moves_of(all)[k - 1]));
        } else {
            assert(l.len() == 0);
            assert(r is None);
        }
    }
}

/// As many calls as there are moves hand out each of them once, with their
/// numbers, by falling score, and bring the list into this order; every later
/// call gives nothing.
pub proof fn all_handed_out_once(
    orderers: Seq<MoveOrderer>,
    lists: Seq<MoveList>,
    results: Seq<Option<(usize, Move)>>,
    b: Board,
    h: Hints,
) -> (ms: Seq<Move>)
    requires
        calls(orderers, lists, results),
        orderers[0].remaining(&lists[0]) == scored(b, lists[0]@, h),
    ensures
        ms.to_multiset() == lists[0]@.to_multiset(),
        ms.len() == lists[0]@.len(),
        forall|i: int, j: int|
            0 <= i <= j < ms.len() ==> order_score(b, #[trigger] ms[i], h) >= order_score(
                b,
                #[trigger] ms[j],
                h,
            ),
        forall|k: int|
            0 <= k < results.len() ==> #[trigger] results[k] == if k < ms.len() {
                Some((k as usize, ms[k]))
            } else {
                None::<(usize, Move)>
            },
        results.len() >= ms.len() ==> lists.last()@ == ms,
{
    let start = orderers[0].remaining(&lists[0]);
    let all = selected(start);
    let ms = moves_of(all);
    let n = lists[0]@.len() as int;
    selected_sorts(start);
    assert(moves_of(start) =~= lists[0]@);
    assert forall|i: int| 0 <= i < n implies (#[trigger] all[i]).0 == order_score(b, ms[i], h) by {
        assert(start.contains(all[i]));
        let k = choose|k: int| 0 <= k < start.len() && start[k] == all[i];
        assert(start[k] == (order_score(b, lists[0]@[k], h), lists[0]@[k]));
    }
    assert forall|i: int, j: int| 0 <= i <= j < ms.len() implies order_score(
        b,
        #[trigger] ms[i],
        h,
    ) >= order_score(b, #[trigger] ms[j], h) by {
        assert(all[i].0 >= all[j].0);
    }
    assert forall|k: int| 0 <= k < results.len() implies #[trigger] results[k] == if k < ms.len() {
        Some((k as usize, ms[k]))
    } else {
        None::<(usize, Move)>
    } by {
        state_after(orderers, lists, results, k + 1);
    }
    if results.len() >= n {
        state_after(orderers, lists, results, results.len() as int);
        assert(lists.last()@.take(n) =~= lists.last()@);
        assert(ms.take(n) =~= ms);
    }
    ms
}

} // verus!
