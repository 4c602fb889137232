//! Iterative deepening: the root moves are searched one ply deeper each time,
//! with a window around the last score, until time runs out.
use std::time::Instant;
use vstd::prelude::*;
use crate::arith::{abs_i32, neg_i32, wadd, wneg};
use crate::checks::compute_checking_squares;
use crate::context::Context;
use crate::eval::MATE_SCORE;
use crate::listing::{legal_moves, lists_all};
use crate::movegen::is_in_check;
use crate::moves::{Move, MoveList, uci_text};
use crate::position::{Position, Undo, undo_of};
use crate::rules::{Board, after};
use crate::search::alphabeta::{NEAR_MATE, search_node};
use crate::search::deepening::{
    DeepModel, DeepStep, Deepened, DepthModel, FIRST_WINDOW, LAST_WINDOW, Report, RootFrame,
    RootModel, RootScore, RoundResult, RoundRun, RoundVerdict, WIDEST_WINDOW, booked, by_score,
    deepened, deeper, depth_rounds, first_window, gathered, history_sum, insert_index,
    must_widen, one_round, repetition_seed, report_of, root_child, root_moves, root_node,
    root_order, round_run, round_verdict, string_texts, summed_history, widenings_left,
    wider_window,
};
use crate::search::negamax::{list_moves, negamax};
use crate::search::ordering::{Hints, order_score, score_move};
use crate::search::quiescence::{
    all_playable, may_play, may_play_wf, ready, same_position, search_step,
};
use crate::search::report::{DepthInfo, extract_pv, info_text, line_wf, principal_variation};
use crate::search::thread_state::{
    Lore, Pulse, SearchLimits, SearchModel, SearchState, ThreadLocalSearch, fresh_lore,
    group_told, hears, new_local_is_fresh, now_ms, rows_i32, told_more, told_same, undisturbed,
    went_on_told,
};
use crate::search::timing::{Spent, nanos_since, sum_spent, total_spent};
use crate::search::tt::TableModel;
use crate::zobrist::board_hash;

verus! {

broadcast use group_told;

/// Whether a move's text is in the book.
fn in_book(m: Move, book: &Vec<String>) -> (r: bool)
    requires
        m.wf(),
    ensures
        r == string_texts(book@).contains(uci_text(m.parts())),
{
    let text = m.to_uci();
    let mut i: usize = 0;
    while i < book.len()
        invariant
            i <= book@.len(),
            text@ == uci_text(m.parts()),
            forall|j: int| 0 <= j < i ==> string_texts(book@)[j] != text@,
        decreases book@.len() - i,
    {
        proof {
            assert(string_texts(book@)[i as int] == book@[i as int]@);
        }
        if text == book[i] {
            proof {
                assert(string_texts(book@).contains(text@));
            }
            return true;
        }
        i += 1;
    }
    false
}

/// The root moves: those in the book, or all if the book has none of them.
pub fn pick_root_moves(list: &MoveList, book: &Vec<String>) -> (r: Vec<Move>)
    requires
        forall|i: int| 0 <= i < list@.len() ==> (#[trigger] list@[i]).wf(),
    ensures
        ({
            let chosen = booked(list@, string_texts(book@), list@.len() as int);
            r@ == if chosen.len() > 0 {
                chosen
            } else {
                list@
            }
        }),
{
    let mut chosen: Vec<Move> = Vec::new();
    let mut all: Vec<Move> = Vec::new();
    let mut i: usize = 0;
    while i < list.count()
        invariant
            i <= list@.len(),
            forall|k: int| 0 <= k < list@.len() ==> (#[trigger] list@[k]).wf(),
            chosen@ == booked(list@, string_texts(book@), i as int),
            all@ =~= list@.take(i as int),
        decreases list@.len() - i,
    {
        let m = list.moves[i];
        assert(list@[i as int].wf());
        if in_book(m, book) {
            chosen.push(m);
        }
        all.push(m);
        i += 1;
    }
    proof {
        assert(list@.take(i as int) =~= list@);
    }
    if chosen.len() > 0 {
        chosen
    } else {
        all
    }
}

/// The keys that repetitions at the root are counted against.
pub fn seed_repetitions(pos: &Position) -> (r: Vec<u64>)
    ensures
        r@ == repetition_seed(pos.undo_stack@, pos.zobrist_key, pos.halfmove_clock),
{
    let ghost keys = pos.undo_stack@.map_values(|u: Undo| u.prev_zobrist).push(pos.zobrist_key);
    let mut all: Vec<u64> = Vec::new();
    let mut i: usize = 0;
    while i < pos.undo_stack.len()
        invariant
            i <= pos.undo_stack@.len(),
            all@ =~= pos.undo_stack@.map_values(|u: Undo| u.prev_zobrist).take(i as int),
        decreases pos.undo_stack@.len() - i,
    {
        all.push(pos.undo_stack[i].prev_zobrist);
        i += 1;
    }
    all.push(pos.zobrist_key);
    assert(all@ =~= keys);
    let look_back: usize = pos.halfmove_clock as usize;
    let start: usize = if all.len() >= look_back {
        all.len() - look_back
    } else {
        0
    };
    let mut out: Vec<u64> = Vec::new();
    let mut j: usize = start;
    while j < all.len()
        invariant
            start <= j <= all@.len(),
            all@ == keys,
            out@ =~= keys.subrange(start as int, j as int),
        decreases all@.len() - j,
    {
        out.push(all[j]);
        j += 1;
    }
    proof {
        assert(out@ =~= keys.skip(start as int));
    }
    out
}

/// The window at the start of a depth.
pub fn start_window(depth: i32, last: i32) -> (r: (i32, i32))
    ensures
        r == first_window(depth, last),
{
    if depth <= 2 || abs_i32(last) >= NEAR_MATE {
        (-MATE_SCORE, MATE_SCORE)
    } else {
        (last.wrapping_sub(FIRST_WINDOW), last.wrapping_add(FIRST_WINDOW))
    }
}

/// The next wider window, with its half-width.
pub fn widen_window(window: i32, last: i32) -> (r: (i32, i32, i32))
    requires
        0 < window <= WIDEST_WINDOW,
    ensures
        r == wider_window(window, last),
        r.0 > window,
{
    let w: i32 = 4 * window;
    if w > LAST_WINDOW {
        (w, -MATE_SCORE, MATE_SCORE)
    } else {
        (w, last.wrapping_sub(w), last.wrapping_add(w))
    }
}

/// Whether a score calls for a wider window.
pub fn is_outside(depth: i32, last: i32, score: i32, window: i32, alpha: i32, beta: i32) -> (r: bool)
    ensures
        r == must_widen(depth, last, score, window, alpha, beta),
{
    0 < window && window <= WIDEST_WINDOW && depth > 2 && abs_i32(last) < NEAR_MATE && ((score
        <= alpha && score <= last.wrapping_sub(window)) || score >= beta)
}

/// Takes the results of a round together.
pub fn gather(
    results: &Vec<RootScore>,
    best_move: Move,
    prev_best: Move,
    alpha: i32,
) -> (r: RoundResult)
    ensures
        r == gathered(results@, best_move, prev_best, alpha, results@.len() as int),
{
    let mut g = RoundResult {
        best_move,
        best_score: -MATE_SCORE,
        alpha,
        valid: false,
        any_stopped: false,
        incumbent_starved: false,
    };
    let mut i: usize = 0;
    while i < results.len()
        invariant
            i <= results@.len(),
            g == gathered(results@, best_move, prev_best, alpha, i as int),
        decreases results@.len() - i,
    {
        let x = results[i];
        if x.stopped {
            g.any_stopped = true;
            if x.m == prev_best {
                g.incumbent_starved = true;
            }
        } else {
            g.valid = true;
            if x.score > g.best_score {
                g.best_score = x.score;
                g.best_move = x.m;
            }
            if g.best_score > g.alpha {
                g.alpha = g.best_score;
            }
        }
        i += 1;
    }
    g
}

/// Whether a round can be trusted, and whether the search ends with it.
/// `stopped` says whether it has been stopped before, `late` whether time has
/// run out.
pub fn judge_round(g: &RoundResult, stopped: bool, late: bool) -> (r: RoundVerdict)
    ensures
        r == round_verdict(*g, stopped, late),
{
    RoundVerdict {
        trusted: g.valid && !g.incumbent_starved,
        stopped: stopped || g.any_stopped || late,
    }
}

/// What each root move's search has learnt.
pub open spec fn lores_of(locals: Seq<ThreadLocalSearch>) -> Seq<Lore> {
    locals.map_values(|l: ThreadLocalSearch| l.lore())
}

/// Adds up the histories of all root moves.
fn sum_histories(locals: &Vec<ThreadLocalSearch>) -> (r: [[i32; 64]; 64])
    ensures
        rows_i32(r) == summed_history(lores_of(locals@), locals@.len() as int),
{
    let ghost lores = lores_of(locals@);
    let mut sum: [[i32; 64]; 64] = [[0i32; 64]; 64];
    let mut k: usize = 0;
    while k < locals.len()
        invariant
            k <= locals@.len(),
            lores == lores_of(locals@),
            forall|f: int, t: int|
                0 <= f < 64 && 0 <= t < 64 ==> #[trigger] sum[f][t] == history_sum(
                    lores,
                    f,
                    t,
                    k as int,
                ),
        decreases locals@.len() - k,
    {
        let mut f: usize = 0;
        proof {
            assert(lores[k as int] == locals@[k as int].lore());
        }
        while f < 64
            invariant
                f <= 64,
                k < locals@.len(),
                lores == lores_of(locals@),
                lores[k as int] == locals@[k as int].lore(),
                forall|g: int, t: int|
                    0 <= g < f && 0 <= t < 64 ==> #[trigger] sum[g][t] == history_sum(
                        lores,
                        g,
                        t,
                        k + 1,
                    ),
                forall|g: int, t: int|
                    f <= g < 64 && 0 <= t < 64 ==> #[trigger] sum[g][t] == history_sum(
                        lores,
                        g,
                        t,
                        k as int,
                    ),
            decreases 64 - f,
        {
            let mut row = sum[f];
            let other = locals[k].history[f];
            proof {
                assert(lores[k as int].history[f as int] == other@);
            }
            let ghost before = row;
            let mut t: usize = 0;
            while t < 64
                invariant
                    t <= 64,
                    forall|u: int| 0 <= u < t ==> #[trigger] row[u] == wadd(before[u], other[u]),
                    forall|u: int| t <= u < 64 ==> #[trigger] row[u] == before[u],
                decreases 64 - t,
            {
                row[t] = row[t].wrapping_add(other[t]);
                t += 1;
            }
            sum[f] = row;
            proof {
                assert forall|u: int| 0 <= u < 64 implies #[trigger] sum[f as int][u] == history_sum(
                    lores,
                    f as int,
                    u,
                    k + 1,
                ) by {
                    assert(row[u] == wadd(before[u], other[u]));
                    assert(before[u] == history_sum(lores, f as int, u, k as int));
                }
            }
            f += 1;
        }
        k += 1;
    }
    proof {
        let goal = summed_history(lores, locals@.len() as int);
        assert forall|f: int| 0 <= f < 64 implies #[trigger] rows_i32(sum)[f] == goal[f] by {
            assert forall|t: int| 0 <= t < 64 implies sum[f]@[t] == goal[f][t] by {
                assert(sum[f][t] == history_sum(lores, f, t, k as int));
            }
            assert(sum[f]@ =~= goal[f]);
        }
        assert(rows_i32(sum) =~= goal);
    }
    sum
}

/// Indices as mathematical integers.
pub open spec fn index_seq(v: Seq<usize>) -> Seq<int> {
    v.map_values(|i: usize| i as int)
}

/// The indices of scores, highest first; among equals the order stays.
fn sort_indices(scores: &Vec<i32>) -> (r: Vec<usize>)
    ensures
        index_seq(r@) == by_score(scores@, scores@.len() as int),
        r@.len() == scores@.len(),
        forall|i: int| 0 <= i < r@.len() ==> #[trigger] r@[i] < scores@.len(),
{
    let mut out: Vec<usize> = Vec::new();
    let mut i: usize = 0;
    proof {
        assert(index_seq(out@) =~= by_score(scores@, 0));
    }
    while i < scores.len()
        invariant
            i <= scores@.len(),
            out@.len() == i,
            index_seq(out@) == by_score(scores@, i as int),
            forall|k: int| 0 <= k < out@.len() ==> #[trigger] out@[k] < i,
        decreases scores@.len() - i,
    {
        let s: i32 = scores[i];
        let ghost sorted = index_seq(out@);
        let ghost old_out = out@;
        proof {
            assert(sorted.take(sorted.len() as int) =~= sorted);
            assert(insert_index(scores@, sorted, i as int) + sorted.skip(sorted.len() as int)
                =~= insert_index(scores@, sorted, i as int));
        }
        out.push(i);
        let mut j: usize = out.len() - 1;
        let mut placed = false;
        proof {
            assert(index_seq(out@) =~= sorted.take(j as int).push(i as int) + sorted.skip(j as int));
        }
        while j > 0 && !placed
            invariant
                i < scores@.len(),
                s == scores@[i as int],
                j <= sorted.len(),
                sorted.len() == i,
                out@.len() == i + 1,
                forall|k: int| 0 <= k < sorted.len() ==> 0 <= #[trigger] sorted[k] < i,
                forall|k: int| 0 <= k < out@.len() ==> #[trigger] out@[k] <= i,
                index_seq(out@) == sorted.take(j as int).push(i as int) + sorted.skip(j as int),
                insert_index(scores@, sorted, i as int) == insert_index(
                    scores@,
                    sorted.take(j as int),
                    i as int,
                ) + sorted.skip(j as int),
                placed ==> insert_index(scores@, sorted.take(j as int), i as int) == sorted.take(
                    j as int,
                ).push(i as int),
            decreases j,
                if placed {
                    0int
                } else {
                    1int
                },
        {
            let prev: usize = out[j - 1];
            let ghost part = sorted.take(j as int);
            proof {
                assert(index_seq(out@)[j - 1] == prev);
                assert(prev == sorted[j - 1]);
                assert(part.last() == prev);
                assert(part.drop_last() =~= sorted.take(j - 1));
            }
            if scores[prev] >= s {
                placed = true;
            } else {
                let ghost was = index_seq(out@);
                out[j - 1] = i;
                out[j] = prev;
                proof {
                    assert(index_seq(out@) =~= was.update(j - 1, i as int).update(
                        j as int,
                        prev as int,
                    ));
                    assert(insert_index(scores@, part, i as int) + sorted.skip(j as int)
                        =~= insert_index(scores@, sorted.take(j - 1), i as int) + sorted.skip(
                        j - 1,
                    ));
                    assert(index_seq(out@) =~= sorted.take(j - 1).push(i as int) + sorted.skip(
                        j - 1,
                    ));
                }
                j -= 1;
            }
        }
        proof {
            if !placed {
                assert(sorted.take(0) =~= seq![]);
            }
            assert(index_seq(out@) =~= insert_index(scores@, sorted, i as int));
        }
        i += 1;
    }
    out
}

/// The order in which the root moves are searched.
fn order_root(
    pos: &Position,
    root: &Vec<Move>,
    locals: &Vec<ThreadLocalSearch>,
    killers: &[Move; 2],
    prev_best: Move,
    Ghost(f): Ghost<RootFrame>,
) -> (r: Vec<usize>)
    requires
        ready(pos),
        all_playable(pos@, root@),
        f.b == pos@,
        f.root == root@,
        f.killers == killers@,
    ensures
        index_seq(r@) == root_order(f, lores_of(locals@), prev_best),
        r@.len() == root@.len(),
        forall|i: int| 0 <= i < r@.len() ==> #[trigger] r@[i] < root@.len(),
{
    let ghost b = pos@;
    proof {
        reveal(ready);
    }
    let check_ctx = compute_checking_squares(pos, pos.side_to_move);
    let history = sum_histories(locals);
    let ghost h = Hints {
        tt_move: prev_best,
        killers: killers@,
        countermove: Move::null(),
        history: rows_i32(history),
    };
    let mut scores: Vec<i32> = Vec::new();
    let mut i: usize = 0;
    while i < root.len()
        invariant
            i <= root@.len(),
            ready(pos),
            b == pos@,
            all_playable(b, root@),
            check_ctx.describes(b, b.side),
            h == (Hints {
                tt_move: prev_best,
                killers: killers@,
                countermove: Move::null(),
                history: rows_i32(history),
            }),
            scores@.len() == i,
            forall|k: int| 0 <= k < i ==> #[trigger] scores@[k] == order_score(b, root@[k], h),
        decreases root@.len() - i,
    {
        let m = root[i];
        proof {
            assert(may_play(b, root@[i as int]));
            reveal(ready);
            reveal(may_play);
            search_step(*pos.ctx, b, m);
        }
        scores.push(score_move(pos, m, prev_best, killers, Move::null(), &history, &check_ctx));
        i += 1;
    }
    proof {
        assert(scores@ =~= Seq::new(f.root.len(), |k: int| order_score(f.b, f.root[k], h)));
    }
    sort_indices(&scores)
}

/// Searches one root move with its own state.
fn search_root_move(
    pos: &mut Position,
    state: &mut SearchState,
    local: &mut ThreadLocalSearch,
    m: Move,
    rep_seed: &Vec<u64>,
    depth: i32,
    alpha: i32,
    beta: i32,
) -> (r: RootScore)
    requires
        ready(old(pos)),
        old(state).wf(),
        may_play(old(pos)@, m),
    ensures
        same_position(final(pos), old(pos)),
        final(state).wf(),
        final(state).local == old(state).local,
        final(state).signals == old(state).signals,
        told_more(final(state).told(), old(state).told()),
        forall|answers: Seq<bool>|
            #![trigger hears(answers, final(state).told())]
            hears(answers, final(state).told()) ==> ({
                let c = after(old(pos)@, m.parts());
                let (s, t) = search_node(
                    *old(pos).ctx,
                    c,
                    SearchModel {
                        table: old(state).shared.tt@,
                        lore: old(local).lore(),
                        reps: rep_seed@.push(board_hash(c)),
                        pulse: Pulse {
                            nodes: 0,
                            stopped: false,
                            asked: old(state).told().len(),
                            answers,
                        },
                    },
                    root_node(c, m, depth, alpha, beta),
                );
                &&& r == (RootScore { m, score: wneg(s), stopped: t.pulse.stopped })
                &&& final(state).shared.tt@ == t.table
                &&& final(local).lore() == t.lore
                &&& final(state).shared.nodes_aggregate
                    == vstd::wrapping::u64_specs::wrapping_add(
                    old(state).shared.nodes_aggregate,
                    (t.pulse.nodes % 0x1_0000_0000_0000_0000) as u64,
                )
                &&& t.pulse.asked == final(state).told().len()
                &&& t.pulse.answers == answers
            }),
        r.m == m,
        forall|from: int|
            0 <= from <= old(state).told().len() && #[trigger] undisturbed(
                final(state).told(),
                from,
            ) ==> !r.stopped,
{
    let ghost b = pos@;
    let ghost stack = pos.undo_stack@;
    proof {
        reveal(ready);
        reveal(may_play);
        search_step(*pos.ctx, b, m);
    }
    let ghost lore0 = local.lore();
    local.deadline_ms = state.local.deadline_ms;
    local.go_token = state.local.go_token;
    local.stopped = false;
    local.nodes = 0;
    local.visits = Ghost(0nat);
    let mut reps: Vec<u64> = Vec::new();
    let mut i: usize = 0;
    while i < rep_seed.len()
        invariant
            i <= rep_seed@.len(),
            reps@ =~= rep_seed@.take(i as int),
        decreases rep_seed@.len() - i,
    {
        reps.push(rep_seed[i]);
        i += 1;
    }
    proof {
        assert(reps@ =~= rep_seed@);
    }
    local.rep_stack = reps;
    std::mem::swap(&mut state.local, local);
    pos.make_move(m);
    let ghost c = pos@;
    let checks = is_in_check(pos, pos.side_to_move);
    let (child_depth, ext) = if checks {
        (depth, 1)
    } else {
        (depth.wrapping_sub(1), 0)
    };
    state.push_rep(pos.zobrist_key);
    let ghost before = *state;
    let score = negamax(
        pos,
        state,
        child_depth,
        neg_i32(beta),
        neg_i32(alpha),
        1,
        m,
        Move::null(),
        ext,
    );
    proof {
        went_on_told(state.pulse(), before.pulse());
    }
    state.pop_rep();
    proof {
        assert(stack.push(undo_of(b, m.parts())).drop_last() =~= stack);
    }
    pos.unmake_move(m);
    std::mem::swap(&mut state.local, local);
    state.shared.nodes_aggregate = state.shared.nodes_aggregate.wrapping_add(local.nodes);
    RootScore { m, score: neg_i32(score), stopped: local.stopped }
}

/// The results of a round tell nothing but the truth about the root moves:
/// each is the move of its place, or stands for a search that was not made.
pub open spec fn honest(results: Seq<RootScore>, root: Seq<Move>) -> bool {
    &&& results.len() == root.len()
    &&& forall|i: int|
        0 <= i < results.len() ==> (#[trigger] results[i]).m == root[i] || (results[i].score
            == -100_000 && !results[i].stopped)
}

/// The best move of a round is a root move, or the one from before.
proof fn gathered_from_root(
    results: Seq<RootScore>,
    root: Seq<Move>,
    best_move: Move,
    prev_best: Move,
    alpha: i32,
    n: int,
)
    requires
        honest(results, root),
        root.contains(best_move),
        n <= results.len(),
    ensures
        root.contains(gathered(results, best_move, prev_best, alpha, n).best_move),
        gathered(results, best_move, prev_best, alpha, n).best_score >= -100_000,
    decreases n,
{
    if n > 0 {
        gathered_from_root(results, root, best_move, prev_best, alpha, n - 1);
        let x = results[n - 1];
        assert(x.m == root[n - 1] || x.score == -100_000);
        assert(root.contains(root[n - 1]));
    }
}

/// No search of a round was stopped.
pub open spec fn none_stopped(results: Seq<RootScore>) -> bool {
    forall|i: int| 0 <= i < results.len() ==> !(#[trigger] results[i]).stopped
}

proof fn gathered_undisturbed(
    results: Seq<RootScore>,
    best_move: Move,
    prev_best: Move,
    alpha: i32,
    n: int,
)
    requires
        none_stopped(results),
        0 <= n <= results.len(),
    ensures
        ({
            let g = gathered(results, best_move, prev_best, alpha, n);
            !g.any_stopped && !g.incumbent_starved && (n > 0 ==> g.valid)
        }),
    decreases n,
{
    if n > 0 {
        gathered_undisturbed(results, best_move, prev_best, alpha, n - 1);
        assert(!results[n - 1].stopped);
    }
}

proof fn halted_stays(
    f: RootFrame,
    rm: RootModel,
    order: Seq<int>,
    depth: i32,
    alpha: i32,
    beta: i32,
    k: int,
    n: int,
)
    requires
        0 <= k <= n,
        round_run(f, rm, order, depth, alpha, beta, k).halted,
    ensures
        round_run(f, rm, order, depth, alpha, beta, n) == round_run(
            f,
            rm,
            order,
            depth,
            alpha,
            beta,
            k,
        ),
    decreases n,
{
    if k < n {
        halted_stays(f, rm, order, depth, alpha, beta, k, n - 1);
    }
}

/// Searches the root moves one after the other with the same window, until the
/// search is told to stop.
fn run_round(
    pos: &mut Position,
    state: &mut SearchState,
    root: &Vec<Move>,
    locals: &mut Vec<ThreadLocalSearch>,
    rep_seed: &Vec<u64>,
    order: &Vec<usize>,
    depth: i32,
    alpha: i32,
    beta: i32,
    Ghost(f): Ghost<RootFrame>,
) -> (r: Vec<RootScore>)
    requires
        ready(old(pos)),
        old(state).wf(),
        all_playable(old(pos)@, root@),
        old(locals)@.len() == root@.len(),
        order@.len() == root@.len(),
        forall|i: int| 0 <= i < order@.len() ==> #[trigger] order@[i] < root@.len(),
        f.ctx == *old(pos).ctx,
        f.b == old(pos)@,
        f.root == root@,
        f.reps == rep_seed@,
    ensures
        same_position(final(pos), old(pos)),
        final(state).wf(),
        final(state).local == old(state).local,
        final(state).signals == old(state).signals,
        told_more(final(state).told(), old(state).told()),
        final(locals)@.len() == root@.len(),
        honest(r@, root@),
        forall|answers: Seq<bool>|
            #![trigger hears(answers, final(state).told())]
            hears(answers, final(state).told()) ==> ({
                let run = round_run(
                    f,
                    root_model(*old(state), old(locals)@, answers),
                    index_seq(order@),
                    depth,
                    alpha,
                    beta,
                    order@.len() as int,
                );
                r@ == run.results && root_model(*final(state), final(locals)@, answers) == run.rm
            }),
        forall|from: int|
            0 <= from <= old(state).told().len() && #[trigger] undisturbed(
                final(state).told(),
                from,
            ) ==> none_stopped(r@),
{
    let ghost b = pos@;
    let ghost ord = index_seq(order@);
    let mut results: Vec<RootScore> = Vec::new();
    let mut n: usize = 0;
    while n < root.len()
        invariant
            n <= root@.len(),
            results@.len() == n,
            forall|i: int|
                0 <= i < n ==> #[trigger] results@[i] == (RootScore {
                    m: Move::null(),
                    score: -100_000i32 as i32,
                    stopped: false,
                }),
        decreases root@.len() - n,
    {
        results.push(RootScore { m: Move::null(), score: -MATE_SCORE, stopped: false });
        n += 1;
    }
    proof {
        told_same(state.told());
        assert(results@ =~= Seq::new(
            f.root.len(),
            |i: int| RootScore { m: Move::null(), score: -100_000i32 as i32, stopped: false },
        ));
    }
    let mut k: usize = 0;
    let mut going = true;
    while going && k < order.len()
        invariant
            k <= order@.len(),
            forall|answers: Seq<bool>|
                #![trigger hears(answers, state.told())]
                hears(answers, state.told()) ==> round_run(
                    f,
                    root_model(*old(state), old(locals)@, answers),
                    ord,
                    depth,
                    alpha,
                    beta,
                    k as int,
                ) == (RoundRun {
                    results: results@,
                    rm: root_model(*state, locals@, answers),
                    halted: !going,
                }),
            told_more(state.told(), old(state).told()),
            forall|from: int|
                0 <= from <= old(state).told().len() && #[trigger] undisturbed(state.told(), from)
                    ==> none_stopped(results@),
            same_position(pos, old(pos)),
            b == old(pos)@,
            state.wf(),
            state.local == old(state).local,
            state.signals == old(state).signals,
            all_playable(b, root@),
            locals@.len() == root@.len(),
            results@.len() == root@.len(),
            honest(results@, root@),
            order@.len() == root@.len(),
            forall|i: int| 0 <= i < order@.len() ==> #[trigger] order@[i] < root@.len(),
            ord == index_seq(order@),
            f.ctx == *old(pos).ctx,
            f.b == b,
            f.root == root@,
            f.reps == rep_seed@,
        decreases order@.len() - k,
            if going {
                1int
            } else {
                0int
            },
    {
        let ghost entry = *state;
        let stop = state.ask_flag();
        let ghost asked = *state;
        let ghost before = locals@;
        if stop || state.local.stopped {
            going = false;
        } else {
            let i: usize = order[k];
            let m = root[i];
            let ghost told = results@;
            proof {
                assert(may_play(b, root@[i as int]));
                assert(ord[k as int] == i);
                assert(lores_of(before)[i as int] == before[i as int].lore());
            }
            let mut local = ThreadLocalSearch::new();
            std::mem::swap(&mut local, &mut locals[i]);
            let x = search_root_move(pos, state, &mut local, m, rep_seed, depth, alpha, beta);
            std::mem::swap(&mut local, &mut locals[i]);
            results[i] = x;
            proof {
                assert(lores_of(locals@) =~= lores_of(before).update(
                    i as int,
                    locals@[i as int].lore(),
                ));
                assert(results@ =~= told.update(i as int, x));
                assert forall|from: int|
                    0 <= from <= old(state).told().len() && #[trigger] undisturbed(
                        state.told(),
                        from,
                    ) implies none_stopped(results@) by {
                    assert(undisturbed(asked.told(), from));
                    assert(undisturbed(entry.told(), from));
                    assert(none_stopped(told));
                    assert forall|j: int| 0 <= j < results@.len() implies !(
                    #[trigger] results@[j]).stopped by {
                        if j != i {
                            assert(!told[j].stopped);
                        }
                    }
                }
                assert(honest(results@, root@));
                assert forall|answers: Seq<bool>|
                    #![trigger hears(answers, state.told())]
                    hears(answers, state.told()) implies root_child(
                    f,
                    root_model(entry, before, answers).after_question(),
                    i as int,
                    depth,
                    alpha,
                    beta,
                ) == (x, root_model(*state, locals@, answers)) by {
                    assert(hears(answers, asked.told()));
                    assert(root_model(entry, before, answers).lores[i as int]
                        == before[i as int].lore());
                }
            }
        }
        k += 1;
    }
    proof {
        if !going {
            assert forall|answers: Seq<bool>|
                #![trigger hears(answers, state.told())]
                hears(answers, state.told()) implies round_run(
                f,
                root_model(*old(state), old(locals)@, answers),
                ord,
                depth,
                alpha,
                beta,
                order@.len() as int,
            ).results == results@ by {
                halted_stays(
                    f,
                    root_model(*old(state), old(locals)@, answers),
                    ord,
                    depth,
                    alpha,
                    beta,
                    k as int,
                    order@.len() as int,
                );
            }
            assert forall|answers: Seq<bool>|
                #![trigger hears(answers, state.told())]
                hears(answers, state.told()) implies round_run(
                f,
                root_model(*old(state), old(locals)@, answers),
                ord,
                depth,
                alpha,
                beta,
                order@.len() as int,
            ).rm == root_model(*state, locals@, answers) by {
                halted_stays(
                    f,
                    root_model(*old(state), old(locals)@, answers),
                    ord,
                    depth,
                    alpha,
                    beta,
                    k as int,
                    order@.len() as int,
                );
            }
        }
    }
    results
}

/// What the root moves share and what each has learnt, if the answers to the
/// questions of the search are these.
pub open spec fn root_model(
    state: SearchState,
    locals: Seq<ThreadLocalSearch>,
    answers: Seq<bool>,
) -> RootModel {
    RootModel {
        table: state.shared.tt@,
        lores: lores_of(locals),
        nodes: state.shared.nodes_aggregate,
        stopped: state.local.stopped,
        asked: state.told().len(),
        answers,
    }
}

/// A search that goes deeper step by step.
pub struct Deepening {
    pub root: Vec<Move>,
    /// What the search of each root move has learnt, kept from depth to depth.
    pub locals: Vec<ThreadLocalSearch>,
    pub rep_seed: Vec<u64>,
    pub killers: [Move; 2],
    pub best_move: Move,
    pub best_score: i32,
    pub prev_best: Move,
    /// The last depth that gave a result.
    pub depth: i32,
}

/// What one step of deepening came to.
#[derive(Clone, Copy, Debug, PartialEq, Eq, Structural)]
pub struct DepthStep {
    /// The depth gave a result.
    pub committed: bool,
    /// There may be time for another depth.
    pub more: bool,
}

/// Where deepening starts, with `asked` of the answers had.
pub open spec fn start_of(
    root: Seq<Move>,
    table: TableModel,
    asked: nat,
    answers: Seq<bool>,
) -> DeepModel {
    DeepModel {
        depth: 0,
        best_move: root[0],
        best_score: -100_000i32 as i32,
        prev_best: Move::null(),
        rm: RootModel {
            table,
            lores: Seq::new(root.len(), |i: int| fresh_lore()),
            nodes: 0,
            stopped: false,
            asked,
            answers,
        },
    }
}

/// The search of the root moves leaves the state of the search alone, but for
/// the order to stop.
pub open spec fn same_coordinator(new: &SearchState, old: &SearchState) -> bool {
    &&& new.wf()
    &&& new.signals == old.signals
    &&& new.local.lore() == old.local.lore()
    &&& new.local.rep_stack@ == old.local.rep_stack@
    &&& new.local.nodes == old.local.nodes
    &&& new.local.go_token == old.local.go_token
    &&& new.local.deadline_ms == old.local.deadline_ms
    &&& new.local.max_depth == old.local.max_depth
    &&& told_more(new.told(), old.told())
}

impl Deepening {
    pub open spec fn frame(&self, ctx: Context, b: Board) -> RootFrame {
        RootFrame {
            ctx,
            b,
            root: self.root@,
            killers: self.killers@,
            reps: self.rep_seed@,
        }
    }

    /// Where deepening stands, if the answers to the questions of the search
    /// are these.
    pub open spec fn model(&self, state: &SearchState, answers: Seq<bool>) -> DeepModel {
        DeepModel {
            depth: self.depth,
            best_move: self.best_move,
            best_score: self.best_score,
            prev_best: self.prev_best,
            rm: root_model(*state, self.locals@, answers),
        }
    }

    /// Deepening is at its start, with this table and `asked` of the answers had.
    #[verifier::opaque]
    pub open spec fn starts(&self, state: &SearchState, table: TableModel, asked: nat) -> bool {
        forall|answers: Seq<bool>|
            #![trigger self.model(state, answers)]
            self.model(state, answers) == start_of(self.root@, table, asked, answers)
    }

    pub open spec fn wf(&self, b: Board) -> bool {
        &&& self.locals@.len() == self.root@.len()
        &&& all_playable(b, self.root@)
        &&& self.root@.contains(self.best_move)
    }

    /// Nothing but what deepening finds out differs.
    pub open spec fn same_root(&self, other: &Self) -> bool {
        self.root == other.root && self.rep_seed == other.rep_seed && self.killers == other.killers
    }

    /// Sets out to search a position; nothing if there is no legal move. `book`
    /// holds the moves that an opening book has for the position.
    pub fn begin(
        pos: &Position,
        state: &mut SearchState,
        limits: &SearchLimits,
        go_token: u32,
        book: &Vec<String>,
    ) -> (r: Option<Deepening>)
        requires
            ready(pos),
            old(state).wf(),
        ensures
            final(state).wf(),
            final(state).signals == old(state).signals,
            final(state).shared.tt == old(state).shared.tt,
            final(state).local.deadline_ms == limits.deadline_ms,
            final(state).local.go_token == go_token,
            final(state).local.max_depth == limits.max_depth,
            !final(state).local.stopped,
            final(state).local.nodes == 0,
            final(state).local.lore() == old(state).local.lore(),
            final(state).local.rep_stack@ == old(state).local.rep_stack@,
            final(state).shared.nodes_aggregate == 0,
            final(state).told() == old(state).told(),
            lists_all(pos@, legal_moves(pos@)),
            match r {
                None => legal_moves(pos@).len() == 0,
                Some(d) => {
                    &&& legal_moves(pos@).len() > 0
                    &&& d.wf(pos@)
                    &&& d.root@ == root_moves(pos@, string_texts(book@))
                    &&& d.rep_seed@ == repetition_seed(
                        pos.undo_stack@,
                        board_hash(pos@),
                        pos.halfmove_clock,
                    )
                    &&& d.killers@ == old(state).local.lore().killers[0]
                    &&& d.depth == 0
                    &&& d.starts(final(state), old(state).shared.tt@, old(state).told().len())
                },
            },
    {
        state.local.go_token = go_token;
        state.local.deadline_ms = limits.deadline_ms;
        state.local.max_depth = limits.max_depth;
        state.local.stopped = false;
        state.local.nodes = 0;
        state.local.visits = Ghost(0nat);
        state.shared.nodes_aggregate = 0;
        let ghost b = pos@;
        let list = list_moves(pos);
        if list.count() == 0 {
            return None;
        }
        proof {
            assert forall|i: int| 0 <= i < list@.len() implies (#[trigger] list@[i]).wf() by {
                assert(may_play(b, list@[i]));
                may_play_wf(b, list@[i]);
            }
        }
        let started = Instant::now();
        let root = pick_root_moves(&list, book);
        state.local.time_in_book_filter_ns = nanos_since(&started);
        proof {
            booked_playable(b, list@, string_texts(book@), list@.len() as int);
            assert(root@.contains(root@[0]));
        }
        let mut locals: Vec<ThreadLocalSearch> = Vec::new();
        let mut i: usize = 0;
        while i < root.len()
            invariant
                i <= root@.len(),
                locals@.len() == i,
                lores_of(locals@) =~= Seq::new(i as nat, |k: int| fresh_lore()),
            decreases root@.len() - i,
        {
            let l = ThreadLocalSearch::new();
            proof {
                new_local_is_fresh(l);
                assert(lores_of(locals@.push(l)) =~= lores_of(locals@).push(l.lore()));
            }
            locals.push(l);
            i += 1;
        }
        proof {
            reveal(ready);
        }
        let rep_seed = seed_repetitions(pos);
        let best_move = root[0];
        let killers = state.local.killers[0];
        proof {
            reveal(Deepening::starts);
        }
        Some(
            Deepening {
                root,
                locals,
                rep_seed,
                killers,
                best_move,
                best_score: -MATE_SCORE,
                prev_best: Move::null(),
                depth: 0,
            },
        )
    }

    /// Searches one depth more, unless the search has been interrupted.
    ///
    /// Whatever the search is told when it asks whether to stop, the result is
    /// that of [`deeper`] under these answers.
    pub fn next_depth(&mut self, pos: &mut Position, state: &mut SearchState) -> (r: DepthStep)
        requires
            ready(old(pos)),
            old(state).wf(),
            old(self).wf(old(pos)@),
            old(self).depth < i32::MAX,
        ensures
            same_position(final(pos), old(pos)),
            same_coordinator(final(state), old(state)),
            final(self).wf(final(pos)@),
            final(self).same_root(old(self)),
            r.committed ==> final(self).depth == old(self).depth + 1,
            r.more ==> r.committed && !final(state).local.stopped,
            !r.committed ==> final(self).depth == old(self).depth && final(self).best_move == old(
                self).best_move && final(self).best_score == old(self).best_score,
            forall|from: int|
                0 <= from <= old(state).told().len() && !old(state).local.stopped
                    && #[trigger] undisturbed(final(state).told(), from) ==> r.more,
            old(state).local.stopped ==> !r.committed && *final(self) == *old(self)
                && final(state).local == old(state).local && final(state).shared == old(
                state,
            ).shared,
            forall|answers: Seq<bool>|
                #![trigger hears(answers, final(state).told())]
                hears(answers, final(state).told()) ==> deeper(
                    old(self).frame(*old(pos).ctx, old(pos)@),
                    old(self).model(old(state), answers),
                ) == (DeepStep {
                    committed: r.committed,
                    more: r.more,
                    d: final(self).model(final(state), answers),
                }),
    {
        let ghost entry = *state;
        let told = state.ask();
        if told || state.local.stopped {
            return DepthStep { committed: false, more: false };
        }
        let ghost asked = *state;
        let ghost locals0 = self.locals@;
        let ghost ctx = *pos.ctx;
        let ghost b = pos@;
        let ghost f = self.frame(ctx, b);
        let depth: i32 = self.depth + 1;
        let last: i32 = self.best_score;
        let mut window: i32 = FIRST_WINDOW;
        let (mut alpha, mut beta) = start_window(depth, last);
        let ghost (alpha0, beta0) = (alpha, beta);
        let mut found = self.best_move;
        let mut score: i32 = -MATE_SCORE;
        let mut trusted = false;
        let mut going = true;
        proof {
            told_same(state.told());
        }
        while going
            invariant
                same_position(pos, old(pos)),
                ctx == *old(pos).ctx,
                b == old(pos)@,
                state.wf(),
                same_coordinator(state, &asked),
                going ==> !state.local.stopped,
                forall|from: int|
                    0 <= from <= entry.told().len() && #[trigger] undisturbed(state.told(), from)
                        ==> !state.local.stopped && (!going ==> trusted),
                entry.told() == old(state).told(),
                told_more(asked.told(), entry.told()),
                self.same_root(old(self)),
                self.wf(b),
                f == self.frame(ctx, b),
                self.best_move == old(self).best_move,
                self.best_score == old(self).best_score,
                self.prev_best == old(self).prev_best,
                self.depth == old(self).depth,
                last == self.best_score,
                self.root@.contains(found),
                going ==> window > 0,
                forall|answers: Seq<bool>|
                    #![trigger hears(answers, state.told())]
                    hears(answers, state.told()) ==> depth_rounds(
                        f,
                        root_model(asked, locals0, answers),
                        depth,
                        old(self).best_move,
                        last,
                        old(self).prev_best,
                        FIRST_WINDOW,
                        alpha0,
                        beta0,
                    ) == if going {
                        depth_rounds(
                            f,
                            root_model(*state, self.locals@, answers),
                            depth,
                            found,
                            last,
                            self.prev_best,
                            window,
                            alpha,
                            beta,
                        )
                    } else {
                        DepthModel {
                            best_move: found,
                            best_score: score,
                            trusted,
                            rm: root_model(*state, self.locals@, answers),
                        }
                    },
            decreases
                    if going {
                        widenings_left(window) + 1
                    } else {
                        0
                    },
        {
            let ghost top = *state;
            let ghost locals1 = self.locals@;
            let order = order_root(
                pos,
                &self.root,
                &self.locals,
                &self.killers,
                self.prev_best,
                Ghost(f),
            );
            let results = run_round(
                pos,
                state,
                &self.root,
                &mut self.locals,
                &self.rep_seed,
                &order,
                depth,
                alpha,
                beta,
                Ghost(f),
            );
            let ghost ran = *state;
            proof {
                gathered_from_root(
                    results@,
                    self.root@,
                    found,
                    self.prev_best,
                    alpha,
                    results@.len() as int,
                );
            }
            let g = gather(&results, found, self.prev_best, alpha);
            let late = state.ask_clock();
            let verdict = judge_round(&g, state.local.stopped, late);
            proof {
                assert forall|answers: Seq<bool>|
                    #![trigger hears(answers, state.told())]
                    hears(answers, state.told()) implies one_round(
                    f,
                    root_model(top, locals1, answers),
                    depth,
                    found,
                    self.prev_best,
                    alpha,
                    beta,
                ) == (g, root_model(ran, self.locals@, answers)) && answers[ran.told().len() as int]
                    == late by {
                    assert(hears(answers, ran.told()));
                }
            }
            proof {
                assert forall|from: int|
                    0 <= from <= entry.told().len() && #[trigger] undisturbed(state.told(), from)
                    implies !verdict.stopped && verdict.trusted by {
                    assert(undisturbed(ran.told(), from));
                    assert(undisturbed(top.told(), from));
                    gathered_undisturbed(
                        results@,
                        found,
                        self.prev_best,
                        alpha,
                        results@.len() as int,
                    );
                }
            }
            state.local.stopped = verdict.stopped;
            trusted = verdict.trusted;
            found = g.best_move;
            score = g.best_score;
            if !verdict.stopped && is_outside(depth, last, score, window, g.alpha, beta) {
                let (w, a, z) = widen_window(window, last);
                window = w;
                alpha = a;
                beta = z;
            } else {
                going = false;
            }
        }
        if !trusted {
            return DepthStep { committed: false, more: false };
        }
        self.best_score = score;
        self.best_move = found;
        self.prev_best = found;
        self.depth = depth;
        DepthStep { committed: true, more: !state.local.stopped }
    }
}

/// Root moves from the book may be played.
pub proof fn booked_playable(b: Board, moves: Seq<Move>, book: Seq<Seq<char>>, n: int)
    requires
        all_playable(b, moves),
        n <= moves.len(),
    ensures
        all_playable(b, booked(moves, book, n)),
    decreases n,
{
    if n > 0 {
        booked_playable(b, moves, book, n - 1);
        assert(may_play(b, moves[n - 1]));
    }
}

/// What a search came to.
pub struct RootResult {
    pub best_move: Move,
    pub score: i32,
    /// The last depth that gave a result.
    pub depth: i32,
    /// The clock or an order to stop ended the search.
    pub stopped: bool,
    /// One info line for each depth.
    pub lines: Vec<String>,
}

impl Deepening {
    /// What there is to say about the last depth, `start_ms` being when the
    /// search began.
    pub fn report(&self, pos: &Position, state: &SearchState, start_ms: u64) -> (r: DepthInfo)
        requires
            ready(pos),
            state.wf(),
            self.wf(pos@),
            self.depth >= 0,
        ensures
            r.depth == self.depth,
            r.score == self.best_score,
            r.nodes == vstd::wrapping::u64_specs::wrapping_add(
                state.local.nodes,
                state.shared.nodes_aggregate,
            ),
            r.elapsed_ms > 0,
            r.pv@ == principal_variation(
                pos@,
                state.shared.tt@,
                self.best_move,
                self.depth as int,
            ),
            line_wf(r.pv@),
            r.spent == total_spent(
                state.local.time_in_book_filter_ns,
                self.locals@,
                self.locals@.len() as int,
            ),
    {
        let now = now_ms();
        let elapsed_ms: u64 = if now > start_ms {
            now - start_ms
        } else {
            1
        };
        proof {
            let i = choose|i: int| 0 <= i < self.root@.len() && self.root@[i] == self.best_move;
            assert(may_play(pos@, self.root@[i]));
        }
        DepthInfo {
            depth: self.depth,
            score: self.best_score,
            nodes: state.local.nodes.wrapping_add(state.shared.nodes_aggregate),
            elapsed_ms,
            pv: extract_pv(pos, &state.shared, self.best_move, self.depth as usize),
            spent: sum_spent(state.local.time_in_book_filter_ns, &self.locals),
        }
    }
}

/// A line is the info line of a depth, for some time that it took, and that its
/// parts took.
pub open spec fn is_info(line: Seq<char>, r: Report) -> bool {
    exists|elapsed: u64, spent: Spent|
        elapsed > 0 && #[trigger] info_text(r.depth, r.score, r.nodes, elapsed, r.pv, spent)
            == line
}

/// The lines are the info lines of the reports.
pub open spec fn are_infos(lines: Seq<Seq<char>>, reports: Seq<Report>) -> bool {
    &&& lines.len() == reports.len()
    &&& forall|i: int| 0 <= i < lines.len() ==> is_info(#[trigger] lines[i], reports[i])
}

/// No legal move is the null move.
proof fn playable_is_not_null(b: Board, m: Move)
    requires
        may_play(b, m),
    ensures
        m != Move::null(),
{
    may_play_wf(b, m);
    assert((0xFFFF_FFFFu32 >> 12) & 0xf == 15) by (bit_vector);
}

/// Searches a position deeper and deeper, up to the limits, and gives the best
/// move; the null move if there is no legal one. `book` holds the moves that an
/// opening book has for the position.
///
/// Whatever the search is told when it asks whether to stop, move, score and
/// lines are those of [`deepened`] under these answers.
pub fn iterative_deepening(
    pos: &mut Position,
    state: &mut SearchState,
    limits: SearchLimits,
    go_token: u32,
    book: &Vec<String>,
) -> (r: RootResult)
    requires
        ready(old(pos)),
        old(state).wf(),
    ensures
        same_position(final(pos), old(pos)),
        final(state).wf(),
        final(state).signals == old(state).signals,
        final(state).local.go_token == go_token,
        final(state).local.deadline_ms == limits.deadline_ms,
        final(state).local.max_depth == limits.max_depth,
        told_more(final(state).told(), old(state).told()),
        lists_all(old(pos)@, legal_moves(old(pos)@)),
        r.best_move == Move::null() <==> legal_moves(old(pos)@).len() == 0,
        legal_moves(old(pos)@).len() == 0 ==> {
            &&& r.score == -100_000 && r.depth == 0 && !r.stopped && r.lines@.len() == 0
            &&& final(state).shared.tt == old(state).shared.tt
            &&& final(state).shared.nodes_aggregate == 0
            &&& !final(state).local.stopped
            &&& final(state).told() == old(state).told()
        },
        final(state).local.lore() == old(state).local.lore(),
        final(state).local.rep_stack@ == old(state).local.rep_stack@,
        final(state).local.nodes == 0,
        legal_moves(old(pos)@).len() > 0 ==> {
            let o = search_outcome(
                old(pos),
                old(state),
                string_texts(book@),
                limits.max_depth,
                final(state).told(),
            );
            &&& root_moves(old(pos)@, string_texts(book@)).contains(r.best_move)
            &&& r.best_move == o.d.best_move
            &&& r.score == o.d.best_score
            &&& r.depth == o.d.depth
            &&& r.stopped == o.stopped
            &&& are_infos(string_texts(r.lines@), o.reports)
            &&& final(state).shared.tt@ == o.d.rm.table
            &&& final(state).shared.nodes_aggregate == o.d.rm.nodes
            &&& final(state).local.stopped == o.d.rm.stopped
            &&& final(state).told().len() == o.d.rm.asked
        },
        limits.max_depth <= 0 ==> !r.stopped,
        undisturbed(final(state).told(), old(state).told().len() as int) ==> !r.stopped && (
        legal_moves(old(pos)@).len() > 0 && limits.max_depth > 0 ==> r.depth == limits.max_depth),
        r.depth <= limits.max_depth || r.depth == 0,
        r.lines@.len() == r.depth,
{
    let start_ms = now_ms();
    let ghost b = pos@;
    let mut lines: Vec<String> = Vec::new();
    let mut d = match Deepening::begin(pos, state, &limits, go_token, book) {
        None => {
            proof {
                told_same(state.told());
            }
            return RootResult {
                best_move: Move::null(),
                score: -MATE_SCORE,
                depth: 0,
                stopped: false,
                lines,
            };
        },
        Some(d) => d,
    };
    let ghost begun = *state;
    let ghost f = d.frame(*pos.ctx, b);
    let ghost start = d;
    let ghost root = d.root@;
    let ghost mut reports: Seq<Report> = seq![];
    let mut going = true;
    proof {
        told_same(state.told());
        assert(string_texts(lines@) =~= seq![]);
    }
    while going && d.depth < limits.max_depth
        invariant
            same_position(pos, old(pos)),
            b == old(pos)@,
            same_coordinator(state, &begun),
            begun.local.nodes == 0,
            d.wf(b),
            f == d.frame(*old(pos).ctx, b),
            root == d.root@,
            0 <= d.depth,
            d.depth <= limits.max_depth || d.depth == 0,
            lines@.len() == d.depth,
            limits.max_depth <= 0 ==> going,
            going ==> !state.local.stopped,
            forall|from: int|
                0 <= from <= begun.told().len() && #[trigger] undisturbed(state.told(), from)
                    ==> going,
            are_infos(string_texts(lines@), reports),
            forall|answers: Seq<bool>|
                #![trigger hears(answers, state.told())]
                hears(answers, state.told()) ==> deepened(
                    f,
                    start.model(&begun, answers),
                    limits.max_depth,
                    seq![],
                ) == if going {
                    deepened(f, d.model(state, answers), limits.max_depth, reports)
                } else {
                    Deepened { d: d.model(state, answers), stopped: true, reports }
                },
        decreases
                if going {
                    limits.max_depth - d.depth + 1
                } else {
                    0
                },
    {
        let step = d.next_depth(pos, state);
        if step.committed {
            let info = d.report(pos, state, start_ms);
            let line = info.text();
            let ghost texts = string_texts(lines@);
            let ghost told = reports;
            lines.push(line);
            proof {
                let r = report_of(b, d.model(state, state.told()));
                assert(info_text(r.depth, r.score, r.nodes, info.elapsed_ms, r.pv, info.spent)
                    == line@);
                assert(is_info(line@, r));
                reports = reports.push(r);
                assert(string_texts(lines@) =~= texts.push(line@));
                assert forall|i: int| 0 <= i < lines@.len() implies is_info(
                    #[trigger] string_texts(lines@)[i],
                    reports[i],
                ) by {
                    if i < told.len() {
                        assert(is_info(texts[i], told[i]));
                    }
                }
            }
        }
        if !step.more {
            going = false;
        }
    }
    proof {
        told_same(state.told());
        let i = choose|i: int| 0 <= i < d.root@.len() && d.root@[i] == d.best_move;
        assert(may_play(b, d.root@[i]));
        playable_is_not_null(b, d.best_move);
        assert(hears(state.told(), state.told()));
        reveal(Deepening::starts);
        reveal(search_outcome);
        assert(start.model(&begun, state.told()) == start_of(
            root,
            old(state).shared.tt@,
            old(state).told().len(),
            state.told(),
        ));
    }
    RootResult { best_move: d.best_move, score: d.best_score, depth: d.depth, stopped: !going, lines }
}

/// What the search of a position comes to, if the answers to its questions are
/// these.
#[verifier::opaque]
pub open spec fn search_outcome(
    pos: &Position,
    state: &SearchState,
    book: Seq<Seq<char>>,
    max_depth: i32,
    answers: Seq<bool>,
) -> Deepened {
    let b = pos@;
    let root = root_moves(b, book);
    let f = RootFrame {
        ctx: *pos.ctx,
        b,
        root,
        killers: state.local.lore().killers[0],
        reps: repetition_seed(pos.undo_stack@, board_hash(b), pos.halfmove_clock),
    };
    deepened(
        f,
        start_of(root, state.shared.tt@, state.told().len(), answers),
        max_depth,
        seq![],
    )
}

} // verus!
