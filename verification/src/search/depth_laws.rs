//! Depth means plies: what a search to some depth has to do with the searches of
//! its moves, one ply less deep.
use vstd::prelude::*;
use crate::arith::{wadd, wneg, wsub};
use crate::checks::checked_by_piece;
use crate::context::Context;
use crate::eval::static_score;
use crate::listing::{legal_moves, moves_are_listed};
use crate::moves::Move;
use crate::rules::{Board, after, in_check, legal};
use crate::search::alphabeta::{
    Frame, MAX_LINE_EXTENSIONS, Node, Tried, bound_of, child_depth, child_ext, extends,
    first_depth, hints_at, is_reduced, one_if, passed_over, reduced_depth, rest_len, search_body,
    search_child, search_inner, search_moves, search_node, search_null, search_one, search_probcut,
    search_singular, table_advice, tries_null,
};
use crate::search::helpers::{final_score, to_table};
use crate::search::ordering::{Scored, best_first, best_index, best_index_range, rest_of, scored};
use crate::search::quiescence::larger;
use crate::search::stopping::{moves_stay, one_stays};
use crate::search::thread_state::SearchModel;
use crate::search::tt::{Bound, TableModel};
use crate::zobrist::board_hash;

verus! {

/// A search of the position after a move: the state it starts from, how deep it
/// goes, its window, and the extensions given before.
pub struct Look {
    pub st: SearchModel,
    pub depth: i32,
    pub alpha: i32,
    pub beta: i32,
    pub ext: i32,
}

/// What the search of a node gives: a score, and the state behind it.
#[verifier::opaque]
pub open spec fn result_of(ctx: Context, b: Board, st: SearchModel, n: Node) -> (i32, SearchModel) {
    search_node(ctx, b, st, n)
}

/// What the look at the position after `m` gives, with the position on the way.
pub open spec fn looked(ctx: Context, b: Board, m: Move, ply: int, k: Look) -> (i32, SearchModel) {
    let c = after(b, m.parts());
    result_of(
        ctx,
        c,
        SearchModel { reps: k.st.reps.push(board_hash(c)), ..k.st },
        Node {
            depth: k.depth,
            alpha: k.alpha,
            beta: k.beta,
            ply: (ply + 1) as i32,
            prev: m,
            excluded: Move::null(),
            ext: k.ext,
        },
    )
}

/// A move of a node of the given depth has the score `s` for the side that makes
/// it, by a look that counts: one at least `depth - 1` plies deep, with the whole
/// window, or with an empty one where the score falls outside the window; or one
/// up to two plies less deep, for a quiet move after the first three that does
/// not reach alpha.
pub open spec fn counts(
    depth: int,
    index: int,
    quiet: bool,
    alpha: i32,
    beta: i32,
    k: Look,
    s: i32,
) -> bool {
    ||| k.depth >= depth - 1 && k.alpha == wneg(beta) && k.beta == wneg(alpha)
    ||| k.depth >= depth - 1 && k.alpha == wsub(wneg(alpha), 1) && k.beta == wneg(alpha) && (s
        <= alpha || s >= beta)
    ||| k.depth >= depth - 3 && k.depth >= 1 && index >= 3 && quiet && s <= alpha
}

/// The score of a move comes from a look that counts. A move that gives check is
/// looked at one ply deeper, as long as there are extensions left. A search that
/// was stopped on the way is stopped at the end.
pub proof fn move_is_searched_to_depth(
    f: Frame,
    st: SearchModel,
    m: Move,
    index: int,
    alpha: i32,
) -> (k: Look)
    requires
        0 <= f.ply < 127,
        i32::MIN < f.depth,
    ensures
        ({
            let (s, t) = scored_by(f, Trial { st, index, alpha }, m);
            let (v, u) = looked(f.ctx, f.b, m, f.ply as int, k);
            &&& s == wneg(v)
            &&& t == (SearchModel { reps: st.reps, ..u })
            &&& counts(f.depth as int, index, !m.parts().flag.captures(), alpha, f.beta, k, s)
            &&& extends(f, m) ==> k.depth >= f.depth
            &&& checked_by_piece(f.b, m.parts()) ==> k.depth >= f.depth - 1
            &&& st.pulse.stopped ==> t.pulse.stopped
        }),
{
    reveal(result_of);
    reveal(scored_by);
    let depth = child_depth(f, m);
    let ext = child_ext(f, m);
    let (down, edge) = (wneg(alpha), wsub(wneg(alpha), 1));
    one_stays_if(f, st, m, index, alpha);
    let whole = Look { st, depth, alpha: wneg(f.beta), beta: down, ext };
    if index == 0 {
        whole
    } else {
        let reduced = reduced_depth(f, m, index);
        let k1 = Look { st, depth: reduced, alpha: edge, beta: down, ext };
        let (s1, st1) = search_child(f, st, m, reduced, edge, down, ext);
        if is_reduced(f, m, index) && s1 > alpha {
            let k2 = Look { st: st1, depth, ..k1 };
            let (s2, st2) = search_child(f, st1, m, depth, edge, down, ext);
            if s2 > alpha && s2 < f.beta {
                Look { st: st2, ..whole }
            } else {
                k2
            }
        } else if !is_reduced(f, m, index) && s1 > alpha && s1 < f.beta {
            Look { st: st1, ..whole }
        } else {
            k1
        }
    }
}

proof fn one_stays_if(f: Frame, st: SearchModel, m: Move, index: int, alpha: i32)
    ensures
        st.pulse.stopped ==> search_one(f, st, m, index, alpha).1.pulse.stopped,
{
    if st.pulse.stopped {
        one_stays(f, st, m, index, alpha);
    }
}

/// How the move `m` was looked at while the moves of a node were tried, with what
/// result.
pub struct Trial {
    pub st: SearchModel,
    pub index: int,
    pub alpha: i32,
}

/// The score of a move in a trial, and the state behind it.
#[verifier::opaque]
pub open spec fn scored_by(f: Frame, t: Trial, m: Move) -> (i32, SearchModel) {
    search_one(f, t.st, m, t.index, t.alpha)
}

/// The move was tried, and scored no more than `best`; if the search was stopped
/// there, it is stopped in `end`.
pub open spec fn tried_below(
    f: Frame,
    m: Move,
    t: Trial,
    alpha: i32,
    best: i32,
    end: SearchModel,
) -> bool {
    let (s, u) = scored_by(f, t, m);
    &&& t.index >= 0
    &&& t.alpha >= alpha
    &&& t.alpha < f.beta
    &&& s <= best
    &&& u.pulse.stopped ==> end.pulse.stopped
}

proof fn member_or_best(l: Seq<Scored>, i: int) -> (j: int)
    requires
        0 <= i < l.len(),
        i != best_index(l, l.len() as int),
    ensures
        0 <= j < rest_of(l).len(),
        rest_of(l)[j] == l[i],
{
    let b = best_index(l, l.len() as int);
    best_index_range(l, l.len() as int);
    let front = best_first(l);
    if i == 0 {
        assert(front[b] == l[0]);
        assert(rest_of(l)[b - 1] == l[0]);
        b - 1
    } else {
        assert(front[i] == l[i]);
        assert(rest_of(l)[i - 1] == l[i]);
        i - 1
    }
}

proof fn from_list(l: Seq<Scored>, j: int) -> (i: int)
    requires
        0 <= j < rest_of(l).len(),
        l.len() > 0,
    ensures
        0 <= i < l.len(),
        l[i] == rest_of(l)[j],
{
    let b = best_index(l, l.len() as int);
    best_index_range(l, l.len() as int);
    rest_len(l);
    let front = best_first(l);
    assert(rest_of(l)[j] == front[j + 1]);
    if j + 1 == b {
        0
    } else {
        j + 1
    }
}

/// Where the search of the moves of a node stands.
struct Going {
    st: SearchModel,
    l: Seq<Scored>,
    index: int,
    alpha: i32,
    best: i32,
    best_move: Move,
}

#[verifier::opaque]
spec fn outcome(f: Frame, g: Going) -> Tried {
    search_moves(f, g.st, g.l, g.index, g.alpha, g.best, g.best_move)
}

/// The move that comes next.
spec fn upcoming(g: Going) -> Move {
    g.l[best_index(g.l, g.l.len() as int)].1
}

spec fn trial_of(g: Going) -> Trial {
    Trial { st: g.st, index: g.index, alpha: g.alpha }
}

/// Where the search stands one move later.
spec fn one_on(f: Frame, g: Going) -> Going {
    let m = upcoming(g);
    let (s, st2) = scored_by(f, trial_of(g), m);
    let best1 = larger(g.best, s);
    Going {
        st: st2,
        l: rest_of(g.l),
        index: g.index + 1,
        alpha: larger(g.alpha, best1),
        best: best1,
        best_move: if s > g.best {
            m
        } else {
            g.best_move
        },
    }
}

/// Nodes of the main line, and nodes in check, are searched in full.
pub open spec fn in_full(f: Frame) -> bool {
    f.pv || f.checked
}

/// In a node that is searched in full no move is passed over: the next is
/// searched, and if it does not reach beta the search goes on.
proof fn step(f: Frame, g: Going)
    requires
        in_full(f),
        f.excluded == Move::null(),
        g.l.len() > 0,
    ensures
        ({
            let (r, h) = (outcome(f, g), one_on(f, g));
            if h.alpha >= f.beta {
                &&& r.settled is None
                &&& r.best == h.best
                &&& r.best_move == h.best_move
                &&& r.st.pulse == h.st.pulse
            } else {
                r == outcome(f, h)
            }
        }),
        h_len(f, g),
{
    reveal(outcome);
    reveal(scored_by);
    rest_len(g.l);
    let m = upcoming(g);
    assert(!passed_over(f, m, g.index, g.alpha));
    assert(search_probcut(f, g.st, m, g.index, g.alpha, g.best) == (None::<i32>, g.st));
}

spec fn h_len(f: Frame, g: Going) -> bool {
    one_on(f, g).l.len() == g.l.len() - 1
}

proof fn nothing_left(f: Frame, g: Going)
    requires
        g.l.len() == 0,
    ensures
        outcome(f, g) == (Tried {
            settled: None,
            best: g.best,
            best_move: g.best_move,
            st: g.st,
        }),
{
    reveal(outcome);
}

proof fn outcome_stays(f: Frame, g: Going)
    ensures
        g.st.pulse.stopped ==> outcome(f, g).st.pulse.stopped,
{
    reveal(outcome);
    if g.st.pulse.stopped {
        moves_stay(f, g.st, g.l, g.index, g.alpha, g.best, g.best_move);
    }
}

/// Going on never lowers the best score, and one that is not beaten keeps its
/// move.
proof fn nothing_lost(f: Frame, g: Going)
    requires
        in_full(f),
        f.excluded == Move::null(),
    ensures
        outcome(f, g).settled is None,
        outcome(f, g).best >= g.best,
        outcome(f, g).best == g.best ==> outcome(f, g).best_move == g.best_move,
    decreases g.l.len(),
{
    if g.l.len() > 0 {
        step(f, g);
        if one_on(f, g).alpha < f.beta {
            nothing_lost(f, one_on(f, g));
        }
    } else {
        nothing_left(f, g);
    }
}

/// Each move is tried, up to the first that reaches beta.
proof fn all_tried(f: Frame, g: Going, i: int) -> (t: Trial)
    requires
        in_full(f),
        f.excluded == Move::null(),
        g.alpha < f.beta,
        g.best < f.beta,
        0 <= g.index,
        0 <= i < g.l.len(),
    ensures
        outcome(f, g).best >= f.beta || tried_below(
            f,
            g.l[i].1,
            t,
            g.alpha,
            outcome(f, g).best,
            outcome(f, g).st,
        ),
    decreases g.l.len(),
{
    let l = g.l;
    let j = best_index(l, l.len() as int);
    best_index_range(l, l.len() as int);
    step(f, g);
    let h = one_on(f, g);
    let t = trial_of(g);
    if h.alpha >= f.beta {
        t
    } else {
        nothing_lost(f, h);
        outcome_stays(f, h);
        if i == j {
            t
        } else {
            let k = member_or_best(l, i);
            all_tried(f, h, k)
        }
    }
}

/// The best score is that of one of the moves, if it is better than before.
proof fn best_is_tried(f: Frame, g: Going) -> (x: (int, Trial))
    requires
        in_full(f),
        f.excluded == Move::null(),
        0 <= g.index,
        g.alpha < f.beta,
        outcome(f, g).best > g.best,
    ensures
        ({
            let r = outcome(f, g);
            let (i, t) = x;
            let (s, u) = scored_by(f, t, g.l[i].1);
            &&& 0 <= i < g.l.len()
            &&& r.best_move == g.l[i].1
            &&& t.index >= 0
            &&& g.alpha <= t.alpha < f.beta
            &&& s == r.best
            &&& u.pulse.stopped ==> r.st.pulse.stopped
        }),
    decreases g.l.len(),
{
    if g.l.len() == 0 {
        nothing_left(f, g);
    }
    let l = g.l;
    let j = best_index(l, l.len() as int);
    best_index_range(l, l.len() as int);
    step(f, g);
    let h = one_on(f, g);
    let t = trial_of(g);
    if h.alpha >= f.beta {
        (j, t)
    } else {
        nothing_lost(f, h);
        outcome_stays(f, h);
        if outcome(f, g).best > h.best {
            let (i, u) = best_is_tried(f, h);
            let k = from_list(l, i);
            (k, u)
        } else {
            (j, t)
        }
    }
}

/// A node where the search has something to do: the game goes on, the table does
/// not know it at the depth asked for, no move is left out, and there is a check or
/// the window is not empty.
pub open spec fn open_node(b: Board, st: SearchModel, n: Node) -> bool {
    &&& final_score(b, st.reps, n.ply, legal_moves(b).len() > 0) is None
    &&& 0 < n.depth < i32::MAX
    &&& 0 <= n.ply < 127
    &&& n.excluded == Move::null()
    &&& st.table.probe(board_hash(b)) matches Some(e) ==> e.depth < n.depth
    &&& -100_000 <= n.alpha
    &&& n.alpha + 1 < n.beta || (n.alpha < n.beta && in_check(b, b.side))
    &&& n.beta <= 100_000
}

/// The depth to which the moves of a node are searched, and one ply more: the
/// depth asked for, or one less where the table has no move to begin with, four
/// plies or more are asked for, and there is no check.
pub open spec fn depth_of_moves(b: Board, st: SearchModel, n: Node) -> int {
    let known = st.table.probe(board_hash(b)) matches Some(e) && e.best_move != Move::null();
    if !known && n.depth >= 4 && !in_check(b, b.side) {
        n.depth - 1
    } else {
        n.depth as int
    }
}

/// What the search of the moves of an open node starts from.
proof fn open_node_runs(ctx: Context, b: Board, st: SearchModel, n: Node) -> (x: (Frame, Going))
    requires
        open_node(b, st, n),
        !result_of(ctx, b, st, n).1.pulse.stopped,
    ensures
        ({
            let (f, g) = x;
            let (r, t) = result_of(ctx, b, st, n);
            &&& (r == n.beta && n.beta < 99_000) || (r == outcome(f, g).best
                && t.pulse == outcome(f, g).st.pulse && t.table == outcome(f, g).st.table.store(
                board_hash(b),
                f.depth,
                to_table(r, n.ply),
                bound_of(r, n.alpha, n.beta),
                outcome(f, g).best_move,
            ))
            &&& f.depth <= depth_of_moves(b, st, n) + 1
            &&& f.ctx == ctx && f.b == b && in_full(f) && f.excluded == Move::null()
            &&& f.ply == n.ply && f.beta == n.beta
            &&& f.depth >= depth_of_moves(b, st, n)
            &&& f.depth > 0
            &&& n.ext < 8 ==> f.ext < 8 || f.depth > depth_of_moves(b, st, n)
            &&& g.alpha == n.alpha && g.best == -100_000 && g.index == 0
            &&& g.best_move == Move::null()
            &&& n.beta >= 99_000 && st.table.probe(board_hash(b)) is None ==> {
                &&& g.st == (SearchModel { pulse: st.pulse.after_visit(), ..st })
                &&& f.ext == n.ext
                &&& f.depth == depth_of_moves(b, st, n)
            }
            &&& g.l.len() == legal_moves(b).len()
            &&& forall|i: int| 0 <= i < g.l.len() ==> (#[trigger] g.l[i]).1 == legal_moves(b)[i]
        }),
{
    reveal(result_of);
    let st0 = SearchModel { pulse: st.pulse.after_visit(), ..st };
    assert(!st0.pulse.stopped);
    let a = table_advice(st0.table.probe(board_hash(b)), n);
    assert(a.settled is None && a.alpha == n.alpha && a.beta == n.beta);
    let checked = in_check(b, b.side);
    let pv = wsub(a.beta, a.alpha) > 1;
    assert(pv || checked);
    let depth = first_depth(n.depth, a.tt_move, checked);
    assert(depth == depth_of_moves(b, st, n));
    let (null_score, st1) = search_null(ctx, b, st0, n, a.beta, depth, checked);
    let (stands_out, st2) = search_singular(ctx, b, st1, n, a, depth, checked);
    let extended = stands_out && n.ext < MAX_LINE_EXTENSIONS;
    let depth2 = wadd(depth, one_if(extended));
    let ext2 = wadd(n.ext, one_if(extended));
    let stand = if checked {
        0
    } else {
        static_score(ctx, b) as i32
    };
    let f = Frame {
        ctx,
        b,
        depth: depth2,
        beta: a.beta,
        ply: n.ply,
        prev: n.prev,
        excluded: n.excluded,
        ext: ext2,
        stand,
        checked,
        pv,
        tt_move: a.tt_move,
    };
    let g = Going {
        st: st2,
        l: scored(b, legal_moves(b), hints_at(st2.lore, n, a.tt_move)),
        index: 0,
        alpha: a.alpha,
        best: -100_000i32 as i32,
        best_move: Move::null(),
    };
    reveal(outcome);
    assert(search_node(ctx, b, st, n) == search_inner(ctx, b, st0, n, a));
    nothing_lost(f, g);
    if tries_null(b, depth, a.beta, checked) && null_score >= a.beta {
        assert(search_inner(ctx, b, st0, n, a).0 == a.beta);
    } else {
        assert(search_inner(ctx, b, st0, n, a) == search_body(
            ctx,
            b,
            st2,
            n,
            a,
            depth2,
            ext2,
            checked,
            pv,
        ));
    }
    (f, g)
}

/// A look for a trial counts for the node.
proof fn look_at(f: Frame, t: Trial, m: Move, n: Node, d: int) -> (k: Look)
    requires
        0 <= f.ply < 127,
        0 < f.depth,
        f.depth >= d,
        n.ext < 8 ==> f.ext < 8 || f.depth > d,
    ensures
        ({
            let (s, end) = scored_by(f, t, m);
            let (v, u) = looked(f.ctx, f.b, m, f.ply as int, k);
            &&& wneg(v) == s
            &&& u.pulse == end.pulse
            &&& counts(d, t.index, !m.parts().flag.captures(), t.alpha, f.beta, k, s)
            &&& checked_by_piece(f.b, m.parts()) && n.ext < 8 ==> k.depth >= d
        }),
{
    move_is_searched_to_depth(f, t.st, m, t.index, t.alpha)
}

/// A search covers all moves. Where it is not stopped, and its score does not
/// reach beta, every legal move has been looked at, by a look that counts for the
/// depth asked for, and scores no more than the result. A move that gives check
/// is looked at one ply deeper while there are extensions left.
pub proof fn every_move_is_searched(ctx: Context, b: Board, st: SearchModel, n: Node, m: Move) -> (x: (
    Look,
    int,
    i32,
))
    requires
        open_node(b, st, n),
        legal(b, m),
        !result_of(ctx, b, st, n).1.pulse.stopped,
        result_of(ctx, b, st, n).0 < n.beta,
    ensures
        ({
            let (k, index, alpha) = x;
            let r = result_of(ctx, b, st, n).0;
            let (v, u) = looked(ctx, b, m, n.ply as int, k);
            let d = depth_of_moves(b, st, n);
            &&& wneg(v) <= r
            &&& n.alpha <= alpha < n.beta
            &&& counts(d, index, !m.parts().flag.captures(), alpha, n.beta, k, wneg(v))
            &&& checked_by_piece(b, m.parts()) && n.ext < 8 ==> k.depth >= d
            &&& !u.pulse.stopped
        }),
{
    let (f, g) = open_node_runs(ctx, b, st, n);
    moves_are_listed(b);
    let moves = legal_moves(b);
    assert(moves.contains(m));
    let i = choose|i: int| 0 <= i < moves.len() && moves[i] == m;
    assert(g.l[i].1 == m);
    let t = all_tried(f, g, i);
    let k = look_at(f, t, m, n, depth_of_moves(b, st, n));
    (k, t.index, t.alpha)
}

/// A search finds its score. Where it is not stopped, the score is that of a legal
/// move, by a look that counts for the depth asked for; or it is the worst there
/// is; or it is beta, and passing was enough to reach it.
pub proof fn score_is_that_of_a_move(ctx: Context, b: Board, st: SearchModel, n: Node) -> (x: (
    Move,
    Look,
    int,
    i32,
))
    requires
        open_node(b, st, n),
        !result_of(ctx, b, st, n).1.pulse.stopped,
        result_of(ctx, b, st, n).0 > -100_000,
        result_of(ctx, b, st, n).0 != n.beta || n.beta >= 99_000,
    ensures
        ({
            let (m, k, index, alpha) = x;
            let r = result_of(ctx, b, st, n).0;
            let (v, u) = looked(ctx, b, m, n.ply as int, k);
            let d = depth_of_moves(b, st, n);
            &&& legal(b, m)
            &&& wneg(v) == r
            &&& n.alpha <= alpha < n.beta
            &&& counts(d, index, !m.parts().flag.captures(), alpha, n.beta, k, r)
            &&& checked_by_piece(b, m.parts()) && n.ext < 8 ==> k.depth >= d
            &&& !u.pulse.stopped
        }),
{
    let (f, g) = open_node_runs(ctx, b, st, n);
    let (i, t) = best_is_tried(f, g);
    let m = g.l[i].1;
    moves_are_listed(b);
    assert(legal_moves(b).contains(legal_moves(b)[i]));
    let k = look_at(f, t, m, n, depth_of_moves(b, st, n));
    (m, k, t.index, t.alpha)
}

/// The first move is looked at with the whole window.
proof fn first_look(f: Frame, st: SearchModel, m: Move, alpha: i32)
    requires
        0 <= f.ply < 127,
    ensures
        ({
            let (s, t) = scored_by(f, Trial { st, index: 0, alpha }, m);
            let k = Look {
                st,
                depth: child_depth(f, m),
                alpha: wneg(f.beta),
                beta: wneg(alpha),
                ext: child_ext(f, m),
            };
            let (v, u) = looked(f.ctx, f.b, m, f.ply as int, k);
            s == wneg(v) && t.pulse == u.pulse
        }),
{
    reveal(scored_by);
    reveal(result_of);
}

/// Where there is one legal move, nothing in the table, and the window is open to
/// both sides, the result is that of the move, at most one ply less deep than the
/// depth of the moves; not less deep if it gives check and extensions are left.
pub proof fn only_move_is_followed(ctx: Context, b: Board, st: SearchModel, n: Node) -> (k: Look)
    requires
        open_node(b, st, n),
        n.alpha == -100_000,
        n.beta == 100_000,
        st.table.probe(board_hash(b)) is None,
        legal_moves(b).len() == 1,
        n.ext < 100,
        !result_of(ctx, b, st, n).1.pulse.stopped,
    ensures
        ({
            let m = legal_moves(b)[0];
            let (r, t) = result_of(ctx, b, st, n);
            let (v, u) = looked(ctx, b, m, n.ply as int, k);
            let d = depth_of_moves(b, st, n);
            &&& k.st == (SearchModel { pulse: st.pulse.after_visit(), ..st })
            &&& k.alpha == -100_000
            &&& k.beta == 100_000
            &&& k.depth >= d - 1
            &&& k.depth <= d
            &&& n.ext <= k.ext <= n.ext + 1
            &&& checked_by_piece(b, m.parts()) && n.ext < 8 ==> k.depth == d
            &&& !u.pulse.stopped
            &&& -100_000 < wneg(v) < 100_000 ==> r == wneg(v)
        }),
{
    let (f, g) = open_node_runs(ctx, b, st, n);
    let m = legal_moves(b)[0];
    assert(g.l[0].1 == m);
    assert(best_index(g.l, 1) == 0);
    step(f, g);
    let h = one_on(f, g);
    nothing_left(f, h);
    first_look(f, g.st, m, g.alpha);
    Look {
        st: g.st,
        depth: child_depth(f, m),
        alpha: wneg(f.beta),
        beta: wneg(g.alpha),
        ext: child_ext(f, m),
    }
}

/// A search is remembered as what it was: the last thing that happens to the table
/// is an entry for the position, as deep as the moves were searched, with the score
/// counted from the position and a bound that says how it lies to the window.
pub proof fn search_is_remembered(ctx: Context, b: Board, st: SearchModel, n: Node) -> (x: (
    TableModel,
    int,
    Move,
))
    requires
        open_node(b, st, n),
        !result_of(ctx, b, st, n).1.pulse.stopped,
        result_of(ctx, b, st, n).0 != n.beta || n.beta >= 99_000,
    ensures
        ({
            let (r, t) = result_of(ctx, b, st, n);
            let (table, depth, m) = x;
            let bound = if r <= n.alpha {
                Bound::Upper
            } else if r >= n.beta {
                Bound::Lower
            } else {
                Bound::Exact
            };
            &&& depth_of_moves(b, st, n) <= depth <= depth_of_moves(b, st, n) + 1
            &&& t.table == table.store(board_hash(b), depth as i32, to_table(r, n.ply), bound, m)
            &&& r > -100_000 ==> legal(b, m)
        }),
{
    let (f, g) = open_node_runs(ctx, b, st, n);
    let r = result_of(ctx, b, st, n).0;
    if r > -100_000 {
        let (i, t) = best_is_tried(f, g);
        moves_are_listed(b);
        assert(legal_moves(b).contains(legal_moves(b)[i]));
    }
    (outcome(f, g).st.table, f.depth as int, outcome(f, g).best_move)
}

/// The next move is left out or passed over.
spec fn skips(f: Frame, g: Going) -> bool {
    let m = upcoming(g);
    (f.excluded != Move::null() && m == f.excluded) || passed_over(f, m, g.index, g.alpha)
}

/// What a first, shallow look at a move gives, where there is one.
#[verifier::opaque]
pub open spec fn early(f: Frame, t: Trial, m: Move, best: i32) -> (Option<i32>, SearchModel) {
    search_probcut(f, t.st, m, t.index, t.alpha, best)
}

spec fn early_at(f: Frame, g: Going) -> (Option<i32>, SearchModel) {
    early(f, trial_of(g), upcoming(g), g.best)
}

spec fn past_early(f: Frame, g: Going) -> Going {
    Going { st: early_at(f, g).1, ..g }
}

spec fn past_skip(g: Going) -> Going {
    Going { l: rest_of(g.l), index: g.index + 1, ..g }
}

/// What becomes of the next move in any node.
proof fn step_anywhere(f: Frame, g: Going)
    requires
        g.l.len() > 0,
    ensures
        ({
            let (r, h) = (outcome(f, g), one_on(f, past_early(f, g)));
            if skips(f, g) {
                r == outcome(f, past_skip(g))
            } else if early_at(f, g).0 is Some {
                r.settled == early_at(f, g).0
            } else if h.alpha >= f.beta {
                &&& r.settled is None
                &&& r.best == h.best
                &&& r.st.pulse == h.st.pulse
            } else {
                r == outcome(f, h)
            }
        }),
        rest_of(g.l).len() == g.l.len() - 1,
{
    reveal(outcome);
    reveal(scored_by);
    reveal(early);
    rest_len(g.l);
}

proof fn best_never_falls(f: Frame, g: Going)
    ensures
        outcome(f, g).settled is None ==> outcome(f, g).best >= g.best,
    decreases g.l.len(),
{
    if g.l.len() > 0 {
        step_anywhere(f, g);
        if skips(f, g) {
            best_never_falls(f, past_skip(g));
        } else if early_at(f, g).0 is None {
            let h = one_on(f, past_early(f, g));
            if h.alpha < f.beta {
                best_never_falls(f, h);
            }
        }
    } else {
        nothing_left(f, g);
    }
}

/// In any node each move is left out, passed over, or tried, up to the first that
/// reaches beta, unless an early look settles the node.
proof fn all_dealt_with(f: Frame, g: Going, i: int) -> (t: Trial)
    requires
        g.alpha < f.beta,
        g.best < f.beta,
        0 <= g.index,
        0 <= i < g.l.len(),
    ensures
        ({
            let r = outcome(f, g);
            let m = g.l[i].1;
            ||| r.settled is Some
            ||| r.best >= f.beta
            ||| f.excluded != Move::null() && m == f.excluded
            ||| t.index >= 0 && g.alpha <= t.alpha < f.beta && passed_over(f, m, t.index, t.alpha)
            ||| tried_below(f, m, t, g.alpha, r.best, r.st)
        }),
    decreases g.l.len(),
{
    let l = g.l;
    let j = best_index(l, l.len() as int);
    best_index_range(l, l.len() as int);
    step_anywhere(f, g);
    if skips(f, g) {
        if i == j {
            trial_of(g)
        } else {
            let k = member_or_best(l, i);
            all_dealt_with(f, past_skip(g), k)
        }
    } else if early_at(f, g).0 is Some {
        trial_of(g)
    } else {
        let e = past_early(f, g);
        let h = one_on(f, e);
        let t = trial_of(e);
        if h.alpha >= f.beta {
            t
        } else {
            best_never_falls(f, h);
            outcome_stays(f, h);
            if i == j {
                t
            } else {
                let k = member_or_best(l, i);
                all_dealt_with(f, h, k)
            }
        }
    }
}

proof fn settled_by_early_look(f: Frame, g: Going) -> (x: (int, Trial, i32))
    requires
        outcome(f, g).settled is Some,
        0 <= g.index,
    ensures
        0 <= x.0 < g.l.len(),
        early(f, x.1, g.l[x.0].1, x.2).0 == outcome(f, g).settled,
    decreases g.l.len(),
{
    if g.l.len() == 0 {
        nothing_left(f, g);
    }
    let l = g.l;
    let j = best_index(l, l.len() as int);
    best_index_range(l, l.len() as int);
    step_anywhere(f, g);
    if !skips(f, g) && early_at(f, g).0 is Some {
        (j, trial_of(g), g.best)
    } else {
        let next = if skips(f, g) {
            past_skip(g)
        } else {
            one_on(f, past_early(f, g))
        };
        let (i, t, best) = settled_by_early_look(f, next);
        let k = from_list(l, i);
        (k, t, best)
    }
}

/// A node beside the main line, where the window is empty or not: the game goes on,
/// and the table does not know it at the depth asked for.
pub open spec fn side_node(b: Board, st: SearchModel, n: Node) -> bool {
    &&& final_score(b, st.reps, n.ply, legal_moves(b).len() > 0) is None
    &&& 0 < n.depth < i32::MAX
    &&& 0 <= n.ply < 127
    &&& n.excluded == Move::null()
    &&& st.table.probe(board_hash(b)) matches Some(e) ==> e.depth < n.depth
    &&& -100_000 <= n.alpha
    &&& n.alpha < n.beta
    &&& n.beta <= 100_000
}

proof fn side_node_runs(ctx: Context, b: Board, st: SearchModel, n: Node) -> (x: (Frame, Going))
    requires
        side_node(b, st, n),
        !result_of(ctx, b, st, n).1.pulse.stopped,
        result_of(ctx, b, st, n).0 < n.beta,
    ensures
        ({
            let (f, g) = x;
            let (r, t) = result_of(ctx, b, st, n);
            let o = outcome(f, g);
            &&& match o.settled {
                Some(v) => r == v,
                None => r == o.best,
            }
            &&& t.pulse == o.st.pulse
            &&& f.ctx == ctx && f.b == b && f.excluded == Move::null()
            &&& f.ply == n.ply && f.beta == n.beta
            &&& f.checked == in_check(b, b.side)
            &&& f.pv == (n.beta - n.alpha > 1)
            &&& f.stand == if in_check(b, b.side) {
                0
            } else {
                static_score(ctx, b) as i32
            }
            &&& f.depth >= depth_of_moves(b, st, n)
            &&& f.depth <= depth_of_moves(b, st, n) + 1
            &&& f.depth > 0
            &&& n.ext < 8 ==> f.ext < 8 || f.depth > depth_of_moves(b, st, n)
            &&& g.alpha == n.alpha && g.best == -100_000 && g.index == 0
            &&& g.l.len() == legal_moves(b).len()
            &&& forall|i: int| 0 <= i < g.l.len() ==> (#[trigger] g.l[i]).1 == legal_moves(b)[i]
        }),
{
    reveal(result_of);
    let st0 = SearchModel { pulse: st.pulse.after_visit(), ..st };
    assert(!st0.pulse.stopped);
    let a = table_advice(st0.table.probe(board_hash(b)), n);
    assert(a.settled is None && a.alpha == n.alpha && a.beta == n.beta);
    let checked = in_check(b, b.side);
    let pv = wsub(a.beta, a.alpha) > 1;
    let depth = first_depth(n.depth, a.tt_move, checked);
    assert(depth == depth_of_moves(b, st, n));
    let (null_score, st1) = search_null(ctx, b, st0, n, a.beta, depth, checked);
    let (stands_out, st2) = search_singular(ctx, b, st1, n, a, depth, checked);
    let extended = stands_out && n.ext < MAX_LINE_EXTENSIONS;
    let depth2 = wadd(depth, one_if(extended));
    let ext2 = wadd(n.ext, one_if(extended));
    let stand = if checked {
        0
    } else {
        static_score(ctx, b) as i32
    };
    let f = Frame {
        ctx,
        b,
        depth: depth2,
        beta: a.beta,
        ply: n.ply,
        prev: n.prev,
        excluded: n.excluded,
        ext: ext2,
        stand,
        checked,
        pv,
        tt_move: a.tt_move,
    };
    let g = Going {
        st: st2,
        l: scored(b, legal_moves(b), hints_at(st2.lore, n, a.tt_move)),
        index: 0,
        alpha: a.alpha,
        best: -100_000i32 as i32,
        best_move: Move::null(),
    };
    reveal(outcome);
    assert(search_node(ctx, b, st, n) == search_inner(ctx, b, st0, n, a));
    assert(!(tries_null(b, depth, a.beta, checked) && null_score >= a.beta));
    assert(search_inner(ctx, b, st0, n, a) == search_body(
        ctx,
        b,
        st2,
        n,
        a,
        depth2,
        ext2,
        checked,
        pv,
    ));
    (f, g)
}

/// Beside the main line too every move is accounted for. Where the search is not
/// stopped and its score does not reach beta, each legal move has been looked at
/// and scores no more than the result, or is one of those that are passed over; or
/// the score was settled by an early look at a capture. The moves are as many plies
/// deep as asked for, less one, or less two where there was nothing to begin with.
pub proof fn every_move_is_accounted_for(
    ctx: Context,
    b: Board,
    st: SearchModel,
    n: Node,
    m: Move,
) -> (x: (Frame, Trial, Look, Move, i32))
    requires
        side_node(b, st, n),
        legal(b, m),
        !result_of(ctx, b, st, n).1.pulse.stopped,
        result_of(ctx, b, st, n).0 < n.beta,
    ensures
        ({
            let (f, t, k, capture, best) = x;
            let r = result_of(ctx, b, st, n).0;
            let d = depth_of_moves(b, st, n);
            let (v, u) = looked(ctx, b, m, n.ply as int, k);
            &&& f.b == b && f.ctx == ctx && f.beta == n.beta && f.ply == n.ply
            &&& d <= f.depth <= d + 1
            &&& f.checked == in_check(b, b.side)
            &&& f.pv == (n.beta - n.alpha > 1)
            &&& {
                ||| early(f, t, capture, best).0 == Some(r)
                ||| n.alpha <= t.alpha < n.beta && passed_over(f, m, t.index, t.alpha)
                ||| {
                    &&& wneg(v) <= r
                    &&& n.alpha <= t.alpha < n.beta
                    &&& counts(d, t.index, !m.parts().flag.captures(), t.alpha, n.beta, k, wneg(v))
                    &&& checked_by_piece(b, m.parts()) && n.ext < 8 ==> k.depth >= d
                    &&& !u.pulse.stopped
                }
            }
        }),
{
    let (f, g) = side_node_runs(ctx, b, st, n);
    moves_are_listed(b);
    let moves = legal_moves(b);
    assert(moves.contains(m));
    let i = choose|i: int| 0 <= i < moves.len() && moves[i] == m;
    assert(g.l[i].1 == m);
    if outcome(f, g).settled is Some {
        let (j, t, best) = settled_by_early_look(f, g);
        let k = Look { st, depth: 0, alpha: 0, beta: 0, ext: 0 };
        (f, t, k, g.l[j].1, best)
    } else {
        let t = all_dealt_with(f, g, i);
        let k = look_at(f, t, m, n, depth_of_moves(b, st, n));
        (f, t, k, m, 0)
    }
}

} // verus!
