//! What the alpha-beta search computes, as mathematics: the decisions it takes
//! at a node, and the recursion over the moves.
//!
//! Scores are 32-bit numbers whose arithmetic wraps around.
use vstd::prelude::*;
use crate::arith::{quotient, wabs, wadd, wmul, wneg, wsub};
use crate::checks::checked_by_piece;
use crate::context::Context;
use crate::eval::static_score;
use crate::exchange::exchange_value;
use crate::geometry::valid;
use crate::listing::legal_moves;
use crate::moves::Move;
use crate::pieces::{Color, PieceType};
use crate::rules::{Board, after, after_null, in_check};
use crate::search::helpers::{final_score, from_table, to_table};
use crate::search::ordering::{Hints, Scored, best_index, best_index_range, rest_of, scored};
use crate::search::quiescence::{QUIESCENCE_MAX_PLY, larger, q_search};
use crate::search::thread_state::{Lore, SearchModel};
use crate::search::tt::{Bound, TTEntry};
use crate::single::mixed;
use crate::zobrist::board_hash;

verus! {

/// Extensions along one line, at most.
pub const MAX_LINE_EXTENSIONS: i32 = 8;

/// Scores beyond this count as mate scores where pruning is concerned.
pub const NEAR_MATE: i32 = 99_000;

/// A node of the search: how deep to go, the window, the distance from the
/// root, the move that led here, the move to leave out, and the extensions
/// already given on this line.
#[derive(Clone, Copy)]
pub struct Node {
    pub depth: i32,
    pub alpha: i32,
    pub beta: i32,
    pub ply: i32,
    pub prev: Move,
    pub excluded: Move,
    pub ext: i32,
}

/// What the table says at a node: a score that settles it, or else a move to
/// try first and a window that may be narrower.
#[derive(Clone, Copy)]
pub struct TableAdvice {
    pub settled: Option<i32>,
    pub alpha: i32,
    pub beta: i32,
    pub tt_move: Move,
    pub tt_score: i32,
    pub tt_depth: Option<i32>,
}

/// An entry is only trusted for the score where nothing is left out and it is
/// as deep as asked for.
pub open spec fn table_advice(entry: Option<TTEntry>, n: Node) -> TableAdvice {
    match entry {
        None => TableAdvice {
            settled: None,
            alpha: n.alpha,
            beta: n.beta,
            tt_move: Move::null(),
            tt_score: 0,
            tt_depth: None,
        },
        Some(e) => {
            let score = from_table(e.score, n.ply);
            let trusted = n.excluded == Move::null() && e.depth >= n.depth;
            let alpha = if trusted && e.bound == Bound::Lower && score > n.alpha {
                score
            } else {
                n.alpha
            };
            let beta = if trusted && e.bound == Bound::Upper && score < n.beta {
                score
            } else {
                n.beta
            };
            TableAdvice {
                settled: if trusted && (e.bound == Bound::Exact || alpha >= beta) {
                    Some(score)
                } else {
                    None
                },
                alpha,
                beta,
                tt_move: e.best_move,
                tt_score: score,
                tt_depth: Some(e.depth),
            }
        },
    }
}

/// Without a move from the table a deep node is searched one ply less.
pub open spec fn first_depth(depth: i32, tt_move: Move, checked: bool) -> i32 {
    if tt_move == Move::null() && depth >= 4 && !checked {
        (depth - 1) as i32
    } else {
        depth
    }
}

/// The side has anything but pawns and king.
pub open spec fn has_officers(b: Board, c: Color) -> bool {
    exists|s: int|
        valid(s) && (#[trigger] b.squares[s] matches Some((d, pt)) && d == c && pt
            != PieceType::Pawn && pt != PieceType::King)
}

/// Passing is tried before anything else.
pub open spec fn tries_null(b: Board, depth: i32, beta: i32, checked: bool) -> bool {
    depth >= 3 && !checked && beta < NEAR_MATE && has_officers(b, b.side)
}

/// The table's move is compared with all others to see whether it stands out.
pub open spec fn tries_singular(
    excluded: Move,
    a: TableAdvice,
    depth: i32,
    beta: i32,
    checked: bool,
) -> bool {
    &&& excluded == Move::null()
    &&& a.tt_move != Move::null()
    &&& depth >= 4
    &&& !checked
    &&& wabs(beta) < NEAR_MATE
    &&& a.tt_depth matches Some(d)
    &&& d >= depth - 3
}

/// The static score is so high that the node is given up as a success.
pub open spec fn gives_up_high(
    stand: i32,
    depth: i32,
    beta: i32,
    checked: bool,
    pv: bool,
) -> bool {
    !checked && !pv && depth <= 8 && wabs(beta) < NEAR_MATE && wsub(stand, wmul(85, depth)) >= beta
}

/// What stays the same while the moves of a node are tried.
pub struct Frame {
    pub ctx: Context,
    pub b: Board,
    pub depth: i32,
    pub beta: i32,
    pub ply: i32,
    pub prev: Move,
    pub excluded: Move,
    pub ext: i32,
    pub stand: i32,
    pub checked: bool,
    pub pv: bool,
    pub tt_move: Move,
}

/// A move is passed over: a late quiet move, a quiet move that cannot lift the
/// score to alpha, or a capture that loses too much.
pub open spec fn passed_over(f: Frame, m: Move, index: int, alpha: i32) -> bool {
    let p = m.parts();
    let quiet = !p.flag.captures();
    let checks = checked_by_piece(f.b, p);
    let shallow = !f.pv && !f.checked && f.depth <= 8;
    ||| shallow && quiet && !checks && index >= 4 + wmul(f.depth, f.depth)
    ||| shallow && quiet && !checks && index > 0 && wadd(
        f.stand,
        wadd(90, wmul(80, f.depth)),
    ) <= alpha
    ||| shallow && !quiet && f.ply > 0 && index > 0 && exchange_value(f.b, p) < wneg(
        wadd(wmul(10, f.depth), 15),
    )
}

/// The score that a capture has to reach in a shallow search to settle the
/// node.
pub open spec fn probcut_beta(f: Frame, alpha: i32, best: i32) -> i32 {
    wsub(
        wadd(f.beta, 254),
        if best > alpha {
            85
        } else {
            0
        },
    )
}

/// A capture is first tried in a shallow search.
pub open spec fn tries_probcut(f: Frame, m: Move, index: int, alpha: i32, best: i32) -> bool {
    &&& !f.pv
    &&& !f.checked
    &&& f.depth <= 8
    &&& m.parts().flag.captures()
    &&& index > 0
    &&& f.tt_move != Move::null()
    &&& f.tt_move.wf()
    &&& f.tt_move.parts().flag.captures()
    &&& wabs(f.beta) < NEAR_MATE
    &&& f.stand >= probcut_beta(f, alpha, best)
}

/// Whether a move that gives check is searched one ply deeper.
pub open spec fn extends(f: Frame, m: Move) -> bool {
    checked_by_piece(f.b, m.parts()) && f.ext < MAX_LINE_EXTENSIONS
}

pub open spec fn one_if(x: bool) -> i32 {
    if x {
        1
    } else {
        0
    }
}

pub open spec fn at_least_one(x: i32) -> i32 {
    if x > 1 {
        x
    } else {
        1
    }
}

/// How deep the shallow search of a capture goes.
pub open spec fn probcut_depth(f: Frame, m: Move, alpha: i32, best: i32) -> i32 {
    let above = wsub(f.stand, probcut_beta(f, alpha, best));
    let reduced = at_least_one(wsub(f.depth, quotient(above as int, 319) as i32));
    wadd(wsub(reduced, 1), one_if(extends(f, m)))
}

/// How deep a move is searched.
pub open spec fn child_depth(f: Frame, m: Move) -> i32 {
    wadd(wsub(f.depth, 1), one_if(extends(f, m)))
}

pub open spec fn child_ext(f: Frame, m: Move) -> i32 {
    wadd(f.ext, one_if(extends(f, m)))
}

/// Late quiet moves are searched less deep at first.
pub open spec fn is_reduced(f: Frame, m: Move, index: int) -> bool {
    !m.parts().flag.captures() && !checked_by_piece(f.b, m.parts()) && f.depth >= 3 && index >= 3
}

pub open spec fn reduced_depth(f: Frame, m: Move, index: int) -> i32 {
    if is_reduced(f, m, index) {
        at_least_one(wsub(
            child_depth(f, m),
            if index >= 9 {
                2
            } else {
                1
            },
        ))
    } else {
        child_depth(f, m)
    }
}

/// What is learnt from a quiet move that refutes the node.
pub open spec fn learnt(lore: Lore, ply: i32, depth: i32, prev: Move, m: Move) -> Lore {
    let p = m.parts();
    let ks = lore.killers[ply as int];
    Lore {
        killers: if ks[0] != m {
            lore.killers.update(ply as int, seq![m, ks[0]])
        } else {
            lore.killers
        },
        history: lore.history.update(
            p.from,
            lore.history[p.from].update(
                p.to,
                wadd(lore.history[p.from][p.to], wmul(depth, depth)),
            ),
        ),
        countermove: if prev != Move::null() {
            lore.countermove.update(
                prev.parts().from,
                lore.countermove[prev.parts().from].update(prev.parts().to, m),
            )
        } else {
            lore.countermove
        },
    }
}

pub open spec fn bound_of(best: i32, alpha: i32, beta: i32) -> Bound {
    if best <= alpha {
        Bound::Upper
    } else if best >= beta {
        Bound::Lower
    } else {
        Bound::Exact
    }
}

/// A score and the state of the search behind it.
pub type Found = (i32, SearchModel);

/// How the moves of a node came out: settled by a shallow search, or the best
/// score and move.
pub struct Tried {
    pub settled: Option<i32>,
    pub best: i32,
    pub best_move: Move,
    pub st: SearchModel,
}

/// How far it is to the deepest ply.
pub open spec fn plies_left(ply: i32) -> int {
    if 0 <= ply < 128 {
        128 - ply
    } else {
        0
    }
}

pub open spec fn leaves_out(excluded: Move) -> int {
    if excluded == Move::null() {
        1
    } else {
        0
    }
}

/// The hints by which the moves of a node are ordered.
pub open spec fn hints_at(lore: Lore, n: Node, tt_move: Move) -> Hints {
    Hints {
        tt_move,
        killers: lore.killers[n.ply as int],
        countermove: if n.prev != Move::null() {
            lore.countermove[n.prev.parts().from][n.prev.parts().to]
        } else {
            Move::null()
        },
        history: lore.history,
    }
}

/// The search of a node. A search that is told to stop gives the static score
/// of every node that it still visits.
pub open spec fn search_node(ctx: Context, b: Board, st0: SearchModel, n: Node) -> Found
    decreases plies_left(n.ply), leaves_out(n.excluded), 5int, 0int,
{
    let st = SearchModel { pulse: st0.pulse.after_visit(), ..st0 };
    let moves = legal_moves(b);
    match final_score(b, st.reps, n.ply, moves.len() > 0) {
        _ if st.pulse.stopped => (static_score(ctx, b) as i32, st),
        Some(s) => (s, st),
        None => if n.depth <= 0 {
            let v = q_search(
                ctx,
                b,
                st.reps,
                st.pulse,
                n.alpha,
                n.beta,
                QUIESCENCE_MAX_PLY as int,
                true,
                n.ply,
            );
            (v.0, SearchModel { pulse: v.1, ..st })
        } else if n.ply < 0 || n.ply >= 127 {
            (static_score(ctx, b) as i32, st)
        } else {
            let a = table_advice(st.table.probe(board_hash(b)), n);
            match a.settled {
                Some(s) => (s, st),
                None => search_inner(ctx, b, st, n, a),
            }
        },
    }
}

/// The search of a node that neither the rules nor the table settle.
pub open spec fn search_inner(
    ctx: Context,
    b: Board,
    st: SearchModel,
    n: Node,
    a: TableAdvice,
) -> Found
    decreases plies_left(n.ply), leaves_out(n.excluded), 4int, 0int,
{
    let checked = in_check(b, b.side);
    let pv = wsub(a.beta, a.alpha) > 1;
    let depth = first_depth(n.depth, a.tt_move, checked);
    let (null_score, st1) = search_null(ctx, b, st, n, a.beta, depth, checked);
    if tries_null(b, depth, a.beta, checked) && null_score >= a.beta {
        (a.beta, st1)
    } else {
        let (stands_out, st2) = search_singular(ctx, b, st1, n, a, depth, checked);
        let extended = stands_out && n.ext < MAX_LINE_EXTENSIONS;
        let depth2 = wadd(depth, one_if(extended));
        let ext2 = wadd(n.ext, one_if(extended));
        search_body(ctx, b, st2, n, a, depth2, ext2, checked, pv)
    }
}

/// The part of the search behind passing and extension: the static score, and
/// the moves one after the other.
pub open spec fn search_body(
    ctx: Context,
    b: Board,
    st: SearchModel,
    n: Node,
    a: TableAdvice,
    depth: i32,
    ext: i32,
    checked: bool,
    pv: bool,
) -> Found
    decreases plies_left(n.ply), leaves_out(n.excluded), 3int, 0int,
{
    let stand = if checked {
        0
    } else {
        static_score(ctx, b) as i32
    };
    if gives_up_high(stand, depth, a.beta, checked, pv) {
        (wsub(stand, wmul(85, depth)), st)
    } else {
        let f = Frame {
            ctx,
            b,
            depth,
            beta: a.beta,
            ply: n.ply,
            prev: n.prev,
            excluded: n.excluded,
            ext,
            stand,
            checked,
            pv,
            tt_move: a.tt_move,
        };
        let order = scored(b, legal_moves(b), hints_at(st.lore, n, a.tt_move));
        let t = search_moves(f, st, order, 0, a.alpha, -100_000i32 as i32, Move::null());
        match t.settled {
            Some(s) => (s, t.st),
            None => if n.excluded == Move::null() {
                let table = t.st.table.store(
                    board_hash(b),
                    depth,
                    to_table(t.best, n.ply),
                    bound_of(t.best, n.alpha, a.beta),
                    t.best_move,
                );
                (t.best, SearchModel { table, ..t.st })
            } else {
                (t.best, t.st)
            },
        }
    }
}

/// The score after passing; the state is unchanged where passing is not tried.
pub open spec fn search_null(
    ctx: Context,
    b: Board,
    st: SearchModel,
    n: Node,
    beta: i32,
    depth: i32,
    checked: bool,
) -> Found
    decreases plies_left(n.ply), leaves_out(n.excluded), 1int, 0int,
{
    if tries_null(b, depth, beta, checked) && 0 <= n.ply < 127 {
        let (s, t) = search_node(
            ctx,
            after_null(b),
            st,
            Node {
                depth: (depth - 3) as i32,
                alpha: wneg(beta),
                beta: wadd(wneg(beta), 1),
                ply: (n.ply + 1) as i32,
                prev: Move::null(),
                excluded: Move::null(),
                ext: n.ext,
            },
        );
        (wneg(s), t)
    } else {
        (0, st)
    }
}

/// Whether the table's move stands out: a search of the same position without
/// it stays clearly below its score.
pub open spec fn search_singular(
    ctx: Context,
    b: Board,
    st: SearchModel,
    n: Node,
    a: TableAdvice,
    depth: i32,
    checked: bool,
) -> (bool, SearchModel)
    decreases plies_left(n.ply), leaves_out(n.excluded), 1int, 0int,
{
    if tries_singular(n.excluded, a, depth, a.beta, checked) {
        let target = wsub(a.tt_score, wmul(3, depth));
        let (s, t) = search_node(
            ctx,
            b,
            st,
            Node {
                depth: (depth / 2) as i32,
                alpha: wsub(target, 1),
                beta: target,
                ply: n.ply,
                prev: n.prev,
                excluded: a.tt_move,
                ext: n.ext,
            },
        );
        (s < target, t)
    } else {
        (false, st)
    }
}

/// The score of a move for the side that makes it.
pub open spec fn search_child(
    f: Frame,
    st: SearchModel,
    m: Move,
    depth: i32,
    alpha: i32,
    beta: i32,
    ext: i32,
) -> Found
    decreases plies_left(f.ply), leaves_out(f.excluded), 0int, 0int,
{
    if 0 <= f.ply < 127 {
        let c = after(f.b, m.parts());
        let (s, t) = search_node(
            f.ctx,
            c,
            SearchModel { reps: st.reps.push(board_hash(c)), ..st },
            Node {
                depth,
                alpha,
                beta,
                ply: (f.ply + 1) as i32,
                prev: m,
                excluded: Move::null(),
                ext,
            },
        );
        (wneg(s), SearchModel { reps: st.reps, ..t })
    } else {
        (0, st)
    }
}

/// The search of one move: the first with the full window, the others with an
/// empty window first, and again where they turn out better than expected.
pub open spec fn search_one(f: Frame, st: SearchModel, m: Move, index: int, alpha: i32) -> Found
    decreases plies_left(f.ply), leaves_out(f.excluded), 1int, 0int,
{
    let depth = child_depth(f, m);
    let ext = child_ext(f, m);
    if index == 0 {
        search_child(f, st, m, depth, wneg(f.beta), wneg(alpha), ext)
    } else {
        let (s1, st1) = search_child(
            f,
            st,
            m,
            reduced_depth(f, m, index),
            wsub(wneg(alpha), 1),
            wneg(alpha),
            ext,
        );
        if is_reduced(f, m, index) && s1 > alpha {
            let (s2, st2) = search_child(
                f,
                st1,
                m,
                depth,
                wsub(wneg(alpha), 1),
                wneg(alpha),
                ext,
            );
            if s2 > alpha && s2 < f.beta {
                search_child(f, st2, m, depth, wneg(f.beta), wneg(alpha), ext)
            } else {
                (s2, st2)
            }
        } else if !is_reduced(f, m, index) && s1 > alpha && s1 < f.beta {
            search_child(f, st1, m, depth, wneg(f.beta), wneg(alpha), ext)
        } else {
            (s1, st1)
        }
    }
}

/// The shallow search of a capture, where one is made.
pub open spec fn search_probcut(
    f: Frame,
    st: SearchModel,
    m: Move,
    index: int,
    alpha: i32,
    best: i32,
) -> (Option<i32>, SearchModel)
    decreases plies_left(f.ply), leaves_out(f.excluded), 1int, 0int,
{
    if tries_probcut(f, m, index, alpha, best) {
        let (s, t) = search_child(
            f,
            st,
            m,
            probcut_depth(f, m, alpha, best),
            wsub(wneg(f.beta), 1),
            wneg(alpha),
            child_ext(f, m),
        );
        if s >= probcut_beta(f, alpha, best) {
            (Some(mixed(s, f.beta)), t)
        } else {
            (None, t)
        }
    } else {
        (None, st)
    }
}

/// Tries the remaining moves, best first.
pub open spec fn search_moves(
    f: Frame,
    st: SearchModel,
    l: Seq<Scored>,
    index: int,
    alpha: i32,
    best: i32,
    best_move: Move,
) -> Tried
    decreases plies_left(f.ply), leaves_out(f.excluded), 2int, l.len(),
    via search_moves_decreases
{
    if l.len() == 0 {
        Tried { settled: None, best, best_move, st }
    } else {
        let m = l[best_index(l, l.len() as int)].1;
        let rest = rest_of(l);
        if (f.excluded != Move::null() && m == f.excluded) || passed_over(f, m, index, alpha) {
            search_moves(f, st, rest, index + 1, alpha, best, best_move)
        } else {
            let (settled, st1) = search_probcut(f, st, m, index, alpha, best);
            if settled is Some {
                Tried { settled, best, best_move, st: st1 }
            } else {
                let (s, st2) = search_one(f, st1, m, index, alpha);
                let best1 = larger(best, s);
                let move1 = if s > best {
                    m
                } else {
                    best_move
                };
                let alpha1 = larger(alpha, best1);
                if alpha1 >= f.beta {
                    let lore = if !m.parts().flag.captures() {
                        learnt(st2.lore, f.ply, f.depth, f.prev, m)
                    } else {
                        st2.lore
                    };
                    Tried {
                        settled: None,
                        best: best1,
                        best_move: move1,
                        st: SearchModel { lore, ..st2 },
                    }
                } else {
                    search_moves(f, st2, rest, index + 1, alpha1, best1, move1)
                }
            }
        }
    }
}

#[via_fn]
proof fn search_moves_decreases(
    f: Frame,
    st: SearchModel,
    l: Seq<Scored>,
    index: int,
    alpha: i32,
    best: i32,
    best_move: Move,
) {
    if l.len() > 0 {
        rest_len(l);
    }
}

pub proof fn rest_len(l: Seq<Scored>)
    requires
        l.len() > 0,
    ensures
        rest_of(l).len() == l.len() - 1,
{
    best_index_range(l, l.len() as int);
}

} // verus!
