//! What the answer of a depth rests on: the searches of the root moves.
use vstd::prelude::*;
use crate::arith::wneg;
use crate::listing::{legal_moves, moves_are_listed};
use crate::moves::{Move, uci_text};
use crate::position::Undo;
use crate::rules::{Board, after, in_check, legal};
use crate::search::alphabeta::Node;
use crate::search::deepening::{
    DeepModel, DeepStep, RootFrame, RootModel, RootScore, RoundRun, booked, by_score, deeper,
    depth_rounds, first_window, gathered, insert_index, must_widen, one_round, repetition_seed,
    root_child, root_moves, root_order, round_run, round_verdict, summed_history, widenings_left,
    wider_window,
};
use crate::search::depth_laws::result_of;
use crate::search::mate_laws::{end_of_game_is_seen, is_mated};
use crate::search::ordering::{Hints, order_score};
use crate::search::thread_state::{Pulse, SearchModel};
use crate::zobrist::board_hash;

verus! {

/// Of the searches that came to their end, the best counts: none scores more, and
/// the best move is one that scores as much. Searches that were stopped do not
/// count, whatever their score.
pub proof fn best_finished_search_counts(
    results: Seq<RootScore>,
    best_move: Move,
    prev_best: Move,
    alpha: i32,
    n: int,
)
    requires
        0 <= n <= results.len(),
    ensures
        ({
            let g = gathered(results, best_move, prev_best, alpha, n);
            &&& forall|i: int|
                0 <= i < n && !(#[trigger] results[i]).stopped ==> results[i].score <= g.best_score
            &&& (g.best_score == -100_000 && g.best_move == best_move) || exists|i: int|
                0 <= i < n && !(#[trigger] results[i]).stopped && results[i].score == g.best_score
                    && results[i].m == g.best_move
            &&& g.valid <==> exists|i: int| 0 <= i < n && !(#[trigger] results[i]).stopped
            &&& g.any_stopped <==> exists|i: int| 0 <= i < n && (#[trigger] results[i]).stopped
            &&& g.incumbent_starved <==> exists|i: int|
                0 <= i < n && (#[trigger] results[i]).stopped && results[i].m == prev_best
            &&& g.best_score >= -100_000
            &&& g.alpha >= alpha
        }),
    decreases n,
{
    if n > 0 {
        best_finished_search_counts(results, best_move, prev_best, alpha, n - 1);
        let h = gathered(results, best_move, prev_best, alpha, n - 1);
        let g = gathered(results, best_move, prev_best, alpha, n);
        let x = results[n - 1];
        if !x.stopped && x.score > h.best_score {
            assert(results[n - 1].m == g.best_move);
        } else if !(h.best_score == -100_000 && h.best_move == best_move) {
            let i = choose|i: int|
                0 <= i < n - 1 && !(#[trigger] results[i]).stopped && results[i].score
                    == h.best_score && results[i].m == h.best_move;
            assert(results[i].m == g.best_move);
        }
    }
}

/// A search of the position after a root move.
pub struct RootLook {
    pub rm: RootModel,
    pub alpha: i32,
    pub beta: i32,
}

/// What a root move scores at a depth, and whether its search was stopped.
#[verifier::opaque]
pub open spec fn root_look(f: RootFrame, i: int, depth: i32, k: RootLook) -> RootScore {
    root_child(f, k.rm, i, depth, k.alpha, k.beta).0
}

/// A root move is searched one ply less deep than the depth, or as deep if it
/// gives check, with the window of its round turned round, from the state of its
/// own search and a count of nodes that starts at zero.
pub proof fn root_move_is_searched_to_depth(f: RootFrame, i: int, depth: i32, k: RootLook) -> (d: i32)
    requires
        0 < depth,
    ensures
        ({
            let m = f.root[i];
            let c = after(f.b, m.parts());
            let checks = in_check(c, c.side);
            let st = SearchModel {
                table: k.rm.table,
                lore: k.rm.lores[i],
                reps: f.reps.push(board_hash(c)),
                pulse: Pulse {
                    nodes: 0,
                    stopped: false,
                    asked: k.rm.asked,
                    answers: k.rm.answers,
                },
            };
            let node = Node {
                depth: d,
                alpha: wneg(k.beta),
                beta: wneg(k.alpha),
                ply: 1,
                prev: m,
                excluded: Move::null(),
                ext: if checks {
                    1
                } else {
                    0
                },
            };
            let (v, t) = result_of(f.ctx, c, st, node);
            &&& d >= depth - 1
            &&& checks ==> d == depth
            &&& root_look(f, i, depth, k) == (RootScore {
                m,
                score: wneg(v),
                stopped: t.pulse.stopped,
            })
        }),
{
    reveal(root_look);
    reveal(result_of);
    let c = after(f.b, f.root[i].parts());
    if in_check(c, c.side) {
        depth
    } else {
        (depth - 1) as i32
    }
}

/// A root move that mates scores as a mate at every depth, unless it is stopped.
pub proof fn root_mate_is_seen(f: RootFrame, i: int, depth: i32, k: RootLook)
    requires
        0 < depth,
        is_mated(after(f.b, f.root[i].parts())),
        !root_look(f, i, depth, k).stopped,
    ensures
        root_look(f, i, depth, k).score == 99_999,
{
    let d = root_move_is_searched_to_depth(f, i, depth, k);
    let m = f.root[i];
    let c = after(f.b, m.parts());
    let st = SearchModel {
        table: k.rm.table,
        lore: k.rm.lores[i],
        reps: f.reps.push(board_hash(c)),
        pulse: Pulse { nodes: 0, stopped: false, asked: k.rm.asked, answers: k.rm.answers },
    };
    let node = Node {
        depth: d,
        alpha: wneg(k.beta),
        beta: wneg(k.alpha),
        ply: 1,
        prev: m,
        excluded: Move::null(),
        ext: if in_check(c, c.side) {
            1
        } else {
            0
        },
    };
    end_of_game_is_seen(f.ctx, c, st, node);
}

/// A result of a round is that of a search of the root move at the round's depth
/// and window, or stands for a search that was not made.
pub open spec fn round_result(
    f: RootFrame,
    i: int,
    depth: i32,
    alpha: i32,
    beta: i32,
    x: RootScore,
) -> bool {
    ||| x == (RootScore { m: Move::null(), score: -100_000i32 as i32, stopped: false })
    ||| exists|k: RootLook|
        k.alpha == alpha && k.beta == beta && #[trigger] root_look(f, i, depth, k) == x
}

#[verifier::opaque]
spec fn run_of(
    f: RootFrame,
    rm: RootModel,
    order: Seq<int>,
    depth: i32,
    alpha: i32,
    beta: i32,
    n: int,
) -> RoundRun {
    round_run(f, rm, order, depth, alpha, beta, n)
}

proof fn run_step(
    f: RootFrame,
    rm: RootModel,
    order: Seq<int>,
    depth: i32,
    alpha: i32,
    beta: i32,
    n: int,
)
    requires
        0 < n,
    ensures
        ({
            let before = run_of(f, rm, order, depth, alpha, beta, n - 1);
            let now = run_of(f, rm, order, depth, alpha, beta, n);
            let k = RootLook { rm: before.rm.after_question(), alpha, beta };
            if before.halted {
                now == before
            } else {
                ||| now.halted && now.results == before.results && (before.rm.next_answer()
                    || before.rm.stopped)
                ||| !now.halted && now.results == before.results.update(
                    order[n - 1],
                    root_look(f, order[n - 1], depth, k),
                )
            }
        }),
{
    reveal(run_of);
    reveal(root_look);
}

proof fn run_start(f: RootFrame, rm: RootModel, order: Seq<int>, depth: i32, alpha: i32, beta: i32)
    ensures
        run_of(f, rm, order, depth, alpha, beta, 0) == (RoundRun {
            results: Seq::new(
                f.root.len(),
                |i: int| RootScore { m: Move::null(), score: -100_000i32 as i32, stopped: false },
            ),
            rm,
            halted: false,
        }),
{
    reveal(run_of);
}

/// Every result of a round is one of the root move in its place, and a round that
/// is not broken off searches every root move.
proof fn round_is_honest(
    f: RootFrame,
    rm: RootModel,
    order: Seq<int>,
    depth: i32,
    alpha: i32,
    beta: i32,
    n: int,
)
    requires
        0 <= n <= order.len(),
        forall|j: int| 0 <= j < order.len() ==> 0 <= #[trigger] order[j] < f.root.len(),
    ensures
        ({
            let run = run_of(f, rm, order, depth, alpha, beta, n);
            &&& run.results.len() == f.root.len()
            &&& forall|i: int|
                0 <= i < f.root.len() ==> round_result(
                    f,
                    i,
                    depth,
                    alpha,
                    beta,
                    #[trigger] run.results[i],
                )
            &&& !run.halted ==> forall|j: int|
                0 <= j < n ==> searched_at(f, #[trigger] order[j], depth, alpha, beta, run.results)
        }),
    decreases n,
{
    if n == 0 {
        run_start(f, rm, order, depth, alpha, beta);
    } else {
        round_is_honest(f, rm, order, depth, alpha, beta, n - 1);
        run_step(f, rm, order, depth, alpha, beta, n);
        let before = run_of(f, rm, order, depth, alpha, beta, n - 1);
        let run = run_of(f, rm, order, depth, alpha, beta, n);
        if !before.halted && !run.halted {
            let p = order[n - 1];
            let k = RootLook { rm: before.rm.after_question(), alpha, beta };
            let x = root_look(f, p, depth, k);
            assert(run.results == before.results.update(p, x));
            assert(run.results[p] == x);
            assert forall|i: int| 0 <= i < f.root.len() implies round_result(
                f,
                i,
                depth,
                alpha,
                beta,
                #[trigger] run.results[i],
            ) by {
                if i == p {
                    assert(root_look(f, p, depth, k) == run.results[i]);
                } else {
                    assert(run.results[i] == before.results[i]);
                }
            }
            assert forall|j: int| 0 <= j < n implies searched_at(
                f,
                #[trigger] order[j],
                depth,
                alpha,
                beta,
                run.results,
            ) by {
                if order[j] == p {
                    assert(root_look(f, p, depth, k) == run.results[p]);
                } else {
                    assert(j < n - 1);
                    assert(searched_at(f, order[j], depth, alpha, beta, before.results));
                }
            }
        }
    }
}

/// The result in place `i` is that of a search.
pub open spec fn searched_at(
    f: RootFrame,
    i: int,
    depth: i32,
    alpha: i32,
    beta: i32,
    results: Seq<RootScore>,
) -> bool {
    exists|k: RootLook|
        k.alpha == alpha && k.beta == beta && #[trigger] root_look(f, i, depth, k) == results[i]
}

proof fn inserted(scores: Seq<i32>, l: Seq<int>, x: int)
    ensures
        insert_index(scores, l, x).len() == l.len() + 1,
        forall|i: int|
            0 <= i < l.len() + 1 ==> (#[trigger] insert_index(scores, l, x)[i]) == x || l.contains(
                insert_index(scores, l, x)[i],
            ),
        insert_index(scores, l, x).contains(x),
        forall|y: int| #[trigger] l.contains(y) ==> insert_index(scores, l, x).contains(y),
    decreases l.len(),
{
    let r = insert_index(scores, l, x);
    if l.len() == 0 || scores[l.last()] >= scores[x] {
        assert(r[l.len() as int] == x);
        assert forall|y: int| #[trigger] l.contains(y) implies r.contains(y) by {
            let i = choose|i: int| 0 <= i < l.len() && l[i] == y;
            assert(r[i] == y);
        }
        assert forall|i: int| 0 <= i < l.len() + 1 implies (#[trigger] r[i]) == x || l.contains(
            r[i],
        ) by {
            if i < l.len() {
                assert(l[i] == r[i]);
            }
        }
    } else {
        let h = l.drop_last();
        inserted(scores, h, x);
        let q = insert_index(scores, h, x);
        let j = choose|j: int| 0 <= j < q.len() && q[j] == x;
        assert(r[j] == x);
        assert(r[q.len() as int] == l.last());
        assert forall|y: int| #[trigger] l.contains(y) implies r.contains(y) by {
            let i = choose|i: int| 0 <= i < l.len() && l[i] == y;
            if i < h.len() {
                assert(h[i] == y);
                assert(h.contains(y));
                let k = choose|k: int| 0 <= k < q.len() && q[k] == y;
                assert(r[k] == y);
            }
        }
        assert forall|i: int| 0 <= i < l.len() + 1 implies (#[trigger] r[i]) == x || l.contains(
            r[i],
        ) by {
            if i < q.len() {
                assert(r[i] == q[i]);
                if q[i] != x {
                    assert(h.contains(q[i]));
                    let k = choose|k: int| 0 <= k < h.len() && h[k] == q[i];
                    assert(l[k] == r[i]);
                }
            } else {
                assert(l[l.len() - 1] == r[i]);
            }
        }
    }
}

/// Every root move has its turn: the order of a round holds each place.
pub proof fn every_place_has_its_turn(scores: Seq<i32>, n: int)
    requires
        0 <= n,
    ensures
        by_score(scores, n).len() == n,
        forall|i: int| 0 <= i < n ==> #[trigger] by_score(scores, n).contains(i),
        forall|j: int| 0 <= j < n ==> 0 <= #[trigger] by_score(scores, n)[j] < n,
    decreases n,
{
    if n > 0 {
        every_place_has_its_turn(scores, n - 1);
        let l = by_score(scores, n - 1);
        inserted(scores, l, n - 1);
        let r = by_score(scores, n);
        assert forall|i: int| 0 <= i < n implies #[trigger] r.contains(i) by {
            if i < n - 1 {
                assert(l.contains(i));
            }
        }
        assert forall|j: int| 0 <= j < n implies 0 <= #[trigger] r[j] < n by {
            if r[j] != n - 1 {
                assert(l.contains(r[j]));
                let k = choose|k: int| 0 <= k < l.len() && l[k] == r[j];
                assert(l[k] < n - 1);
            }
        }
    }
}

/// The results of the round that decides a depth.
pub struct LastRound {
    pub results: Seq<RootScore>,
    pub best_move: Move,
    pub alpha: i32,
    pub beta: i32,
    pub halted: bool,
}

/// The answer of a depth is taken from the results of its last round, which are
/// searches of the root moves at that depth.
pub open spec fn decided_by(
    f: RootFrame,
    depth: i32,
    prev_best: Move,
    x: LastRound,
    best_move: Move,
    best_score: i32,
) -> bool {
    let g = gathered(x.results, x.best_move, prev_best, x.alpha, x.results.len() as int);
    &&& x.results.len() == f.root.len()
    &&& best_move == g.best_move
    &&& best_score == g.best_score
    &&& forall|i: int|
        0 <= i < f.root.len() ==> round_result(
            f,
            i,
            depth,
            x.alpha,
            x.beta,
            #[trigger] x.results[i],
        )
    &&& !x.halted ==> forall|i: int|
        0 <= i < f.root.len() ==> #[trigger] searched_at(f, i, depth, x.alpha, x.beta, x.results)
}

proof fn round_decides(
    f: RootFrame,
    rm: RootModel,
    depth: i32,
    best_move: Move,
    prev_best: Move,
    alpha: i32,
    beta: i32,
) -> (x: LastRound)
    ensures
        ({
            let g = one_round(f, rm, depth, best_move, prev_best, alpha, beta).0;
            &&& decided_by(f, depth, prev_best, x, g.best_move, g.best_score)
            &&& x.alpha == alpha && x.best_move == best_move
            &&& g == gathered(x.results, best_move, prev_best, alpha, x.results.len() as int)
        }),
{
    reveal(run_of);
    let order = root_order(f, rm.lores, prev_best);
    root_order_is_whole(f, rm, prev_best);
    let n = order.len() as int;
    let run = run_of(f, rm, order, depth, alpha, beta, n);
    round_is_honest(f, rm, order, depth, alpha, beta, n);
    let x = LastRound { results: run.results, best_move, alpha, beta, halted: run.halted };
    if !run.halted {
        assert forall|i: int| 0 <= i < f.root.len() implies #[trigger] searched_at(
            f,
            i,
            depth,
            alpha,
            beta,
            x.results,
        ) by {
            assert(order.contains(i));
            let j = choose|j: int| 0 <= j < order.len() && order[j] == i;
            assert(searched_at(f, order[j], depth, alpha, beta, run.results));
        }
    }
    x
}

proof fn root_order_is_whole(f: RootFrame, rm: RootModel, prev_best: Move)
    ensures
        ({
            let order = root_order(f, rm.lores, prev_best);
            &&& order.len() == f.root.len()
            &&& forall|i: int| 0 <= i < f.root.len() ==> #[trigger] order.contains(i)
            &&& forall|j: int|
                0 <= j < order.len() ==> 0 <= #[trigger] order[j] < f.root.len()
        }),
{
    let h = Hints {
        tt_move: prev_best,
        killers: f.killers,
        countermove: Move::null(),
        history: summed_history(rm.lores, rm.lores.len() as int),
    };
    let scores = Seq::new(
        f.root.len(),
        |i: int| order_score(f.b, f.root[i], h),
    );
    every_place_has_its_turn(scores, f.root.len() as int);
}

proof fn depth_is_decided(
    f: RootFrame,
    rm: RootModel,
    depth: i32,
    best_move: Move,
    last: i32,
    prev_best: Move,
    window: i32,
    alpha: i32,
    beta: i32,
) -> (x: LastRound)
    ensures
        ({
            let r = depth_rounds(f, rm, depth, best_move, last, prev_best, window, alpha, beta);
            &&& decided_by(f, depth, prev_best, x, r.best_move, r.best_score)
            &&& r.trusted ==> exists|i: int|
                0 <= i < x.results.len() && !(#[trigger] x.results[i]).stopped
        }),
    decreases widenings_left(window),
{
    let (g, rm1) = one_round(f, rm, depth, best_move, prev_best, alpha, beta);
    let x = round_decides(f, rm, depth, best_move, prev_best, alpha, beta);
    best_finished_search_counts(
        x.results,
        best_move,
        prev_best,
        alpha,
        x.results.len() as int,
    );
    let v = round_verdict(g, rm1.stopped, rm1.next_answer());
    let rm2 = RootModel { stopped: v.stopped, ..rm1.after_question() };
    if !v.stopped && must_widen(depth, last, g.best_score, window, g.alpha, beta) {
        let (w, a, z) = wider_window(window, last);
        depth_is_decided(f, rm2, depth, g.best_move, last, prev_best, w, a, z)
    } else {
        x
    }
}

/// What follows from a decision: no finished search scores more than the answer,
/// and the answer is the score of its own move's search, unless nothing is better
/// than the worst there is.
proof fn decision_is_best(
    f: RootFrame,
    depth: i32,
    prev_best: Move,
    x: LastRound,
    best_move: Move,
    best_score: i32,
)
    requires
        0 < depth,
        decided_by(f, depth, prev_best, x, best_move, best_score),
    ensures
        forall|i: int|
            0 <= i < x.results.len() && !(#[trigger] x.results[i]).stopped ==> x.results[i].score
                <= best_score,
        best_score > -100_000 ==> exists|i: int, k: RootLook|
            0 <= i < f.root.len() && best_move == f.root[i] && #[trigger] root_look(
                f,
                i,
                depth,
                k,
            ).score == best_score && !root_look(f, i, depth, k).stopped,
{
    best_finished_search_counts(
        x.results,
        x.best_move,
        prev_best,
        x.alpha,
        x.results.len() as int,
    );
    if best_score > -100_000 {
        let i = choose|i: int|
            0 <= i < x.results.len() && !(#[trigger] x.results[i]).stopped && x.results[i].score
                == best_score && x.results[i].m == best_move;
        assert(round_result(f, i, depth, x.alpha, x.beta, x.results[i]));
        let k = choose|k: RootLook|
            k.alpha == x.alpha && k.beta == x.beta && #[trigger] root_look(f, i, depth, k)
                == x.results[i];
        let _ = root_move_is_searched_to_depth(f, i, depth, k);
        assert(root_look(f, i, depth, k).m == f.root[i]);
    }
}

/// Where one depth more leads.
#[verifier::opaque]
pub open spec fn deeper_by_one(f: RootFrame, d: DeepModel) -> DeepStep {
    deeper(f, d)
}

proof fn new_depth_is_decided(f: RootFrame, d: DeepModel) -> (x: LastRound)
    requires
        0 <= d.depth < i32::MAX,
        deeper_by_one(f, d).committed,
    ensures
        ({
            let e = deeper_by_one(f, d).d;
            e.depth == d.depth + 1 && decided_by(
                f,
                e.depth,
                d.prev_best,
                x,
                e.best_move,
                e.best_score,
            )
        }),
{
    reveal(deeper_by_one);
    let depth = (d.depth + 1) as i32;
    let (alpha, beta) = first_window(depth, d.best_score);
    depth_is_decided(
        f,
        d.rm.after_question(),
        depth,
        d.best_move,
        d.best_score,
        d.prev_best,
        50,
        alpha,
        beta,
    )
}

/// One depth more means one ply more: a depth that gives a result goes one beyond
/// the last, and its move and score come from searches of the root moves at that
/// new depth. No finished search scores more, and the score is that of the best
/// move's own search, unless nothing scores better than the worst there is.
pub proof fn new_depth_is_searched(f: RootFrame, d: DeepModel) -> (x: LastRound)
    requires
        0 <= d.depth < i32::MAX,
        deeper_by_one(f, d).committed,
    ensures
        ({
            let e = deeper_by_one(f, d).d;
            &&& e.depth == d.depth + 1
            &&& decided_by(f, e.depth, d.prev_best, x, e.best_move, e.best_score)
            &&& forall|i: int|
                0 <= i < x.results.len() && !(#[trigger] x.results[i]).stopped
                    ==> x.results[i].score <= e.best_score
            &&& e.best_score > -100_000 ==> exists|i: int, k: RootLook|
                0 <= i < f.root.len() && e.best_move == f.root[i] && #[trigger] root_look(
                    f,
                    i,
                    e.depth,
                    k,
                ).score == e.best_score && !root_look(f, i, e.depth, k).stopped
        }),
{
    let x = new_depth_is_decided(f, d);
    let e = deeper_by_one(f, d).d;
    decision_is_best(f, e.depth, d.prev_best, x, e.best_move, e.best_score);
    x
}

/// A mate in one at the root is played: if a root move mates, a depth that gives a
/// result and whose last round was neither broken off nor stopped at that move has
/// the score of a mate in one, or more.
pub proof fn root_mate_is_played(f: RootFrame, d: DeepModel, i: int) -> (x: LastRound)
    requires
        0 <= d.depth < i32::MAX,
        deeper_by_one(f, d).committed,
        0 <= i < f.root.len(),
        is_mated(after(f.b, f.root[i].parts())),
    ensures
        decided_by(
            f,
            deeper_by_one(f, d).d.depth,
            d.prev_best,
            x,
            deeper_by_one(f, d).d.best_move,
            deeper_by_one(f, d).d.best_score,
        ),
        !x.halted && !x.results[i].stopped ==> deeper_by_one(f, d).d.best_score >= 99_999,
{
    let x = new_depth_is_searched(f, d);
    let depth = deeper_by_one(f, d).d.depth;
    if !x.halted && !x.results[i].stopped {
        assert(searched_at(f, i, depth, x.alpha, x.beta, x.results));
        let k = choose|k: RootLook|
            k.alpha == x.alpha && k.beta == x.beta && #[trigger] root_look(f, i, depth, k)
                == x.results[i];
        root_mate_is_seen(f, i, depth, k);
    }
    x
}

proof fn booked_has(moves: Seq<Move>, book: Seq<Seq<char>>, n: int, m: Move)
    requires
        0 <= n <= moves.len(),
    ensures
        booked(moves, book, n).contains(m) <==> moves.take(n).contains(m) && book.contains(
            uci_text(m.parts()),
        ),
    decreases n,
{
    let l = booked(moves, book, n);
    if n > 0 {
        booked_has(moves, book, n - 1, m);
        let r = booked(moves, book, n - 1);
        let (t, u) = (moves.take(n), moves.take(n - 1));
        assert(t =~= u.push(moves[n - 1]));
        pushed(u, moves[n - 1], m);
        pushed(r, moves[n - 1], m);
    } else {
        assert(moves.take(0) =~= seq![]);
    }
}

proof fn pushed(l: Seq<Move>, x: Move, m: Move)
    ensures
        l.push(x).contains(m) <==> l.contains(m) || m == x,
{
    let r = l.push(x);
    if r.contains(m) {
        let k = choose|k: int| 0 <= k < r.len() && r[k] == m;
        if k < l.len() {
            assert(l[k] == m);
        }
    }
    if l.contains(m) {
        let k = choose|k: int| 0 <= k < l.len() && l[k] == m;
        assert(r[k] == m);
    }
    assert(r[l.len() as int] == x);
}

/// The root moves are the legal moves that the book has, or all legal moves where
/// it has none of them.
pub proof fn root_moves_are_legal(b: Board, book: Seq<Seq<char>>, m: Move)
    ensures
        root_moves(b, book).contains(m) <==> legal(b, m) && (book.contains(uci_text(m.parts()))
            || !exists|k: Move| #[trigger] legal(b, k) && book.contains(uci_text(k.parts()))),
{
    moves_are_listed(b);
    let moves = legal_moves(b);
    let n = moves.len() as int;
    assert(moves.take(n) =~= moves);
    booked_has(moves, book, n, m);
    let chosen = booked(moves, book, n);
    if chosen.len() > 0 {
        let k = chosen[0];
        booked_has(moves, book, n, k);
        assert(chosen.contains(k));
        assert(moves.contains(k));
        assert(legal(b, k));
    } else {
        assert forall|k: Move| #[trigger] legal(b, k) implies !book.contains(
            uci_text(k.parts()),
        ) by {
            booked_has(moves, book, n, k);
            assert(moves.contains(k));
        }
    }
    assert(moves.contains(m) <==> legal(b, m));
}

/// A search starts from the keys of the latest positions: as many as there have
/// been half-moves since the last that cannot be taken back, if there are so many,
/// the position itself last.
pub proof fn seed_holds_latest_positions(history: Seq<Undo>, key: u64, halfmove: u16, i: int)
    ensures
        ({
            let seed = repetition_seed(history, key, halfmove);
            let n = seed.len() as int;
            &&& n == if halfmove <= history.len() {
                halfmove as int
            } else {
                history.len() as int + 1
            }
            &&& n > 0 ==> seed[n - 1] == key
            &&& 1 <= i < n ==> seed[n - 1 - i] == history[history.len() - i].prev_zobrist
        }),
{
}

} // verus!
