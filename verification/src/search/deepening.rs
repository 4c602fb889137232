//! What iterative deepening computes, as mathematics: the root moves, the
//! windows, the rounds of a depth, and the depths one after the other.
use vstd::prelude::*;
use crate::arith::{wabs, wadd, wneg, wsub};
use crate::context::Context;
use crate::listing::legal_moves;
use crate::moves::{Move, uci_text};
use crate::position::Undo;
use crate::rules::{Board, after, in_check};
use crate::search::alphabeta::{NEAR_MATE, Node, one_if, search_node};
use crate::search::ordering::{Hints, order_score};
use crate::search::quiescence::larger;
use crate::search::report::principal_variation;
use crate::search::thread_state::{Lore, Pulse, SearchModel};
use crate::search::tt::TableModel;
use crate::zobrist::board_hash;

verus! {

/// The first half-width of the aspiration window.
pub const FIRST_WINDOW: i32 = 50;

/// Half-widths beyond this open the window fully.
pub const LAST_WINDOW: i32 = 2000;

/// Half-widths beyond this are not widened further.
pub const WIDEST_WINDOW: i32 = 500_000_000;

/// The texts that a list of strings holds.
pub open spec fn string_texts(v: Seq<String>) -> Seq<Seq<char>> {
    v.map_values(|s: String| s@)
}

/// The moves among the first `n` whose text is in the book.
pub open spec fn booked(moves: Seq<Move>, book: Seq<Seq<char>>, n: int) -> Seq<Move>
    decreases n,
{
    if n <= 0 {
        seq![]
    } else {
        let rest = booked(moves, book, n - 1);
        if book.contains(uci_text(moves[n - 1].parts())) {
            rest.push(moves[n - 1])
        } else {
            rest
        }
    }
}

/// The root moves: those in the book, or all legal moves if the book has none
/// of them.
pub open spec fn root_moves(b: Board, book: Seq<Seq<char>>) -> Seq<Move> {
    let moves = legal_moves(b);
    let chosen = booked(moves, book, moves.len() as int);
    if chosen.len() > 0 {
        chosen
    } else {
        moves
    }
}

/// The keys of the positions since the last move that cannot be undone, with
/// the position itself.
pub open spec fn repetition_seed(history: Seq<Undo>, key: u64, halfmove: u16) -> Seq<u64> {
    let keys = history.map_values(|u: Undo| u.prev_zobrist).push(key);
    let start = if keys.len() >= halfmove {
        keys.len() - halfmove
    } else {
        0
    };
    keys.skip(start)
}

/// The window at the start of a depth: around the last score, unless that is
/// unreliable or a mate.
pub open spec fn first_window(depth: i32, last: i32) -> (i32, i32) {
    if depth <= 2 || wabs(last) >= NEAR_MATE {
        (-100_000i32 as i32, 100_000)
    } else {
        (wsub(last, FIRST_WINDOW), wadd(last, FIRST_WINDOW))
    }
}

/// The window after a failure, with its half-width.
pub open spec fn wider_window(window: i32, last: i32) -> (i32, i32, i32) {
    let w = (4 * window) as i32;
    if w > LAST_WINDOW {
        (w, -100_000i32 as i32, 100_000)
    } else {
        (w, wsub(last, w), wadd(last, w))
    }
}

/// The score fell out of the window, and the window can still be widened.
pub open spec fn must_widen(
    depth: i32,
    last: i32,
    score: i32,
    window: i32,
    alpha: i32,
    beta: i32,
) -> bool {
    &&& 0 < window <= WIDEST_WINDOW
    &&& depth > 2
    &&& wabs(last) < NEAR_MATE
    &&& (score <= alpha && score <= wsub(last, window)) || score >= beta
}

/// How one root move came out. A move whose search was stopped has no score
/// that counts.
#[derive(Clone, Copy)]
pub struct RootScore {
    pub m: Move,
    pub score: i32,
    pub stopped: bool,
}

/// What a round makes of its results.
#[derive(Clone, Copy)]
pub struct RoundResult {
    pub best_move: Move,
    pub best_score: i32,
    pub alpha: i32,
    pub valid: bool,
    pub any_stopped: bool,
    pub incumbent_starved: bool,
}

/// The results of the first `n` root moves taken together: the best of those
/// that finished, the first among equals.
pub open spec fn gathered(
    results: Seq<RootScore>,
    best_move: Move,
    prev_best: Move,
    alpha: i32,
    n: int,
) -> RoundResult
    decreases n,
{
    if n <= 0 {
        RoundResult {
            best_move,
            best_score: -100_000i32 as i32,
            alpha,
            valid: false,
            any_stopped: false,
            incumbent_starved: false,
        }
    } else {
        let g = gathered(results, best_move, prev_best, alpha, n - 1);
        let x = results[n - 1];
        if x.stopped {
            RoundResult {
                any_stopped: true,
                incumbent_starved: g.incumbent_starved || x.m == prev_best,
                ..g
            }
        } else {
            let better = x.score > g.best_score;
            let best = if better {
                x.score
            } else {
                g.best_score
            };
            RoundResult {
                best_move: if better {
                    x.m
                } else {
                    g.best_move
                },
                best_score: best,
                alpha: larger(g.alpha, best),
                valid: true,
                ..g
            }
        }
    }
}

/// The sum of all searches' histories.
pub open spec fn history_sum(lores: Seq<Lore>, from: int, to: int, n: int) -> i32
    decreases n,
{
    if n <= 0 {
        0
    } else {
        wadd(history_sum(lores, from, to, n - 1), lores[n - 1].history[from][to])
    }
}

pub open spec fn summed_history(lores: Seq<Lore>, n: int) -> Seq<Seq<i32>> {
    Seq::new(64, |f: int| Seq::new(64, |t: int| history_sum(lores, f, t, n)))
}

/// Puts an index behind all whose score is at least as high.
pub open spec fn insert_index(scores: Seq<i32>, l: Seq<int>, i: int) -> Seq<int>
    decreases l.len(),
{
    if l.len() == 0 || scores[l.last()] >= scores[i] {
        l.push(i)
    } else {
        insert_index(scores, l.drop_last(), i).push(l.last())
    }
}

/// The first `n` indices by falling score.
pub open spec fn by_score(scores: Seq<i32>, n: int) -> Seq<int>
    decreases n,
{
    if n <= 0 {
        seq![]
    } else {
        insert_index(scores, by_score(scores, n - 1), n - 1)
    }
}

/// What the root moves share, what each has learnt, and whether the search has
/// to stop. `answers` holds what the search is told when it asks whether to
/// stop; `asked` says how many of the answers it has had.
pub struct RootModel {
    pub table: TableModel,
    pub lores: Seq<Lore>,
    pub nodes: u64,
    pub stopped: bool,
    pub asked: nat,
    pub answers: Seq<bool>,
}

impl RootModel {
    /// The answer to the next question.
    pub open spec fn next_answer(self) -> bool {
        self.answers[self.asked as int]
    }

    /// After one more question.
    pub open spec fn after_question(self) -> RootModel {
        RootModel { asked: self.asked + 1, ..self }
    }
}

/// What does not change while a position is searched deeper and deeper.
pub struct RootFrame {
    pub ctx: Context,
    pub b: Board,
    pub root: Seq<Move>,
    pub killers: Seq<Move>,
    pub reps: Seq<u64>,
}

/// The order in which the root moves are searched.
pub open spec fn root_order(f: RootFrame, lores: Seq<Lore>, prev_best: Move) -> Seq<int> {
    let h = Hints {
        tt_move: prev_best,
        killers: f.killers,
        countermove: Move::null(),
        history: summed_history(lores, lores.len() as int),
    };
    let scores = Seq::new(f.root.len(), |i: int| order_score(f.b, f.root[i], h));
    by_score(scores, f.root.len() as int)
}

/// The search of root move `i`.
pub open spec fn root_child(
    f: RootFrame,
    rm: RootModel,
    i: int,
    depth: i32,
    alpha: i32,
    beta: i32,
) -> (RootScore, RootModel) {
    let m = f.root[i];
    let c = after(f.b, m.parts());
    let (s, t) = search_node(
        f.ctx,
        c,
        SearchModel {
            table: rm.table,
            lore: rm.lores[i],
            reps: f.reps.push(board_hash(c)),
            pulse: Pulse { nodes: 0, stopped: false, asked: rm.asked, answers: rm.answers },
        },
        root_node(c, m, depth, alpha, beta),
    );
    (
        RootScore { m, score: wneg(s), stopped: t.pulse.stopped },
        RootModel {
            table: t.table,
            lores: rm.lores.update(i, t.lore),
            nodes: vstd::wrapping::u64_specs::wrapping_add(
                rm.nodes,
                (t.pulse.nodes % 0x1_0000_0000_0000_0000) as u64,
            ),
            asked: t.pulse.asked,
            ..rm
        },
    )
}

/// The node behind a root move.
pub open spec fn root_node(c: Board, m: Move, depth: i32, alpha: i32, beta: i32) -> Node {
    let checks = in_check(c, c.side);
    Node {
        depth: if checks {
            depth
        } else {
            wsub(depth, 1)
        },
        alpha: wneg(beta),
        beta: wneg(alpha),
        ply: 1,
        prev: m,
        excluded: Move::null(),
        ext: one_if(checks),
    }
}

/// How far a round has come: the results, with a worthless score for each move
/// that has not been searched, and whether it was broken off.
pub struct RoundRun {
    pub results: Seq<RootScore>,
    pub rm: RootModel,
    pub halted: bool,
}

/// The first `n` searches of a round, in the given order. Before each it is
/// asked whether to stop.
pub open spec fn round_run(
    f: RootFrame,
    rm: RootModel,
    order: Seq<int>,
    depth: i32,
    alpha: i32,
    beta: i32,
    n: int,
) -> RoundRun
    decreases n,
{
    if n <= 0 {
        RoundRun {
            results: Seq::new(
                f.root.len(),
                |i: int| RootScore { m: Move::null(), score: -100_000i32 as i32, stopped: false },
            ),
            rm,
            halted: false,
        }
    } else {
        let run = round_run(f, rm, order, depth, alpha, beta, n - 1);
        if run.halted {
            run
        } else if run.rm.next_answer() || run.rm.stopped {
            RoundRun { rm: run.rm.after_question(), halted: true, ..run }
        } else {
            let i = order[n - 1];
            let (x, rm2) = root_child(f, run.rm.after_question(), i, depth, alpha, beta);
            RoundRun { results: run.results.update(i, x), rm: rm2, halted: false }
        }
    }
}

/// What becomes of a round.
#[derive(Clone, Copy, Debug, PartialEq, Eq, Structural)]
pub struct RoundVerdict {
    /// The best move of the round may be taken.
    pub trusted: bool,
    /// The search ends with this round.
    pub stopped: bool,
}

/// A round can be trusted if a search came to its end, unless the search of the
/// move that was best before did not. The search ends where it has been stopped
/// before, where any of the searches was stopped, or where time has run out.
pub open spec fn round_verdict(g: RoundResult, stopped: bool, late: bool) -> RoundVerdict {
    RoundVerdict {
        trusted: g.valid && !g.incumbent_starved,
        stopped: stopped || g.any_stopped || late,
    }
}

/// How a depth came out.
pub struct DepthModel {
    pub best_move: Move,
    pub best_score: i32,
    pub trusted: bool,
    pub rm: RootModel,
}

/// One round: all root moves with the same window.
pub open spec fn one_round(
    f: RootFrame,
    rm: RootModel,
    depth: i32,
    best_move: Move,
    prev_best: Move,
    alpha: i32,
    beta: i32,
) -> (RoundResult, RootModel) {
    let order = root_order(f, rm.lores, prev_best);
    let run = round_run(f, rm, order, depth, alpha, beta, order.len() as int);
    (gathered(run.results, best_move, prev_best, alpha, run.results.len() as int), run.rm)
}

/// The rounds of a depth, with windows that widen until the score falls into
/// one, or the search is stopped. After each round it is asked whether time has
/// run out.
pub open spec fn depth_rounds(
    f: RootFrame,
    rm: RootModel,
    depth: i32,
    best_move: Move,
    last: i32,
    prev_best: Move,
    window: i32,
    alpha: i32,
    beta: i32,
) -> DepthModel
    decreases widenings_left(window),
{
    let (g, rm1) = one_round(f, rm, depth, best_move, prev_best, alpha, beta);
    let v = round_verdict(g, rm1.stopped, rm1.next_answer());
    let rm2 = RootModel { stopped: v.stopped, ..rm1.after_question() };
    if !v.stopped && must_widen(depth, last, g.best_score, window, g.alpha, beta) {
        let (w, a, z) = wider_window(window, last);
        depth_rounds(f, rm2, depth, g.best_move, last, prev_best, w, a, z)
    } else {
        DepthModel {
            best_move: g.best_move,
            best_score: g.best_score,
            trusted: v.trusted,
            rm: rm2,
        }
    }
}

/// A bound on how often the window can still be widened.
pub open spec fn widenings_left(window: i32) -> int {
    if 0 < window <= WIDEST_WINDOW {
        WIDEST_WINDOW - window + 1
    } else {
        0
    }
}

/// Where deepening stands: the depth that was finished last, its best move and
/// score, and the move that orders the next depth.
pub struct DeepModel {
    pub depth: i32,
    pub best_move: Move,
    pub best_score: i32,
    pub prev_best: Move,
    pub rm: RootModel,
}

/// What one depth more comes to: whether it gave a result, and whether there
/// may be time for another.
pub struct DeepStep {
    pub committed: bool,
    pub more: bool,
    pub d: DeepModel,
}

/// One depth more. First it is asked whether to stop. A depth whose last round
/// cannot be trusted leaves move and score as they were.
pub open spec fn deeper(f: RootFrame, d: DeepModel) -> DeepStep {
    let rm = d.rm.after_question();
    if d.rm.next_answer() || d.rm.stopped {
        DeepStep { committed: false, more: false, d: DeepModel { rm, ..d } }
    } else {
        let depth = wadd(d.depth, 1);
        let (alpha, beta) = first_window(depth, d.best_score);
        let r = depth_rounds(
            f,
            rm,
            depth,
            d.best_move,
            d.best_score,
            d.prev_best,
            FIRST_WINDOW,
            alpha,
            beta,
        );
        if r.trusted {
            DeepStep {
                committed: true,
                more: !r.rm.stopped,
                d: DeepModel {
                    depth,
                    best_move: r.best_move,
                    best_score: r.best_score,
                    prev_best: r.best_move,
                    rm: r.rm,
                },
            }
        } else {
            DeepStep { committed: false, more: false, d: DeepModel { rm: r.rm, ..d } }
        }
    }
}

/// What there is to say about a depth, but for the time it took.
pub struct Report {
    pub depth: i32,
    pub score: i32,
    pub nodes: u64,
    pub pv: Seq<Move>,
}

pub open spec fn report_of(b: Board, d: DeepModel) -> Report {
    Report {
        depth: d.depth,
        score: d.best_score,
        nodes: d.rm.nodes,
        pv: principal_variation(b, d.rm.table, d.best_move, d.depth as int),
    }
}

/// Where deepening ends: its state, whether it was stopped, and the reports of
/// the depths that gave a result.
pub struct Deepened {
    pub d: DeepModel,
    pub stopped: bool,
    pub reports: Seq<Report>,
}

/// Goes on to `max_depth`, one depth after the other, behind the reports of the
/// depths before.
pub open spec fn deepened(f: RootFrame, d: DeepModel, max_depth: i32, reports: Seq<Report>) -> Deepened
    decreases max_depth - d.depth,
{
    if d.depth >= max_depth {
        Deepened { d, stopped: false, reports }
    } else {
        let step = deeper(f, d);
        let told = if step.committed {
            reports.push(report_of(f.b, step.d))
        } else {
            reports
        };
        if step.more && step.d.depth > d.depth {
            deepened(f, step.d, max_depth, told)
        } else {
            Deepened { d: step.d, stopped: true, reports: told }
        }
    }
}

} // verus!
