//! Where the search saves itself work, in numbers: what it passes over, where it
//! gives up, what it takes from the table, and what it does at its leaves.
use vstd::prelude::*;
use crate::arith::{wneg, wsub};
use crate::checks::checked_by_piece;
use crate::context::Context;
use crate::exchange::{exchange_bounds, exchange_value};
use crate::geometry::valid;
use crate::listing::legal_moves;
use crate::moves::Move;
use crate::pieces::PieceType;
use crate::rules::{Board, after_null};
use crate::search::alphabeta::{
    Frame, Node, TableAdvice, bound_of, child_ext, gives_up_high, learnt, passed_over,
    probcut_depth, search_null, search_probcut, search_singular, table_advice, tries_null,
};
use crate::search::depth_laws::{Look, looked, result_of};
use crate::search::helpers::{final_score, from_table};
use crate::search::ordering::{Hints, order_score};
use crate::search::quiet_laws::{Quiet, quieted};
use crate::search::thread_state::{Lore, SearchModel};
use crate::search::tt::{Bound, TTEntry};
use crate::single::mixed;

verus! {

/// A move is passed over only near the leaves, outside the main line and out of
/// check: a quiet move without check as late as number four plus the square of the
/// depth, or one that is not the first while the static score and a margin of 90
/// and 80 a ply do not reach alpha; or a capture, not the first and not at the
/// root, that loses more than 15 and 10 a ply.
pub proof fn few_moves_are_passed_over(f: Frame, m: Move, index: int, alpha: i32)
    requires
        1 <= f.depth <= 1_000,
        -1_000_000_000 <= f.stand <= 1_000_000_000,
        passed_over(f, m, index, alpha),
    ensures
        !f.pv,
        !f.checked,
        f.depth <= 8,
        m.parts().flag.captures() ==> index > 0 && f.ply > 0 && exchange_value(f.b, m.parts()) < -(10
            * f.depth + 15),
        !m.parts().flag.captures() ==> !checked_by_piece(f.b, m.parts()) && (index >= 4 + f.depth
            * f.depth || (index > 0 && f.stand + 90 + 80 * f.depth <= alpha)),
{
    let d = f.depth as int;
    assert(1 <= d * d <= 1_000_000) by (nonlinear_arith)
        requires
            1 <= d <= 1_000,
    ;
}

/// A node is given up as a success on its static score only near the leaves,
/// outside the main line, out of check and far from mate, and only if the static
/// score exceeds beta by 85 for every ply.
pub proof fn giving_up_is_safe(stand: i32, depth: i32, beta: i32, checked: bool, pv: bool)
    requires
        1 <= depth <= 1_000,
        -1_000_000_000 <= stand <= 1_000_000_000,
        gives_up_high(stand, depth, beta, checked, pv),
    ensures
        !checked,
        !pv,
        depth <= 8,
        -99_000 < beta < 99_000 || beta == i32::MIN,
        stand - beta >= 85 * depth,
{
}

/// Passing is tried from three plies on, out of check, below the scores of mates,
/// and with a piece beside king and pawns; the position after it is searched three
/// plies less deep with an empty window at beta, one ply further from the root.
pub proof fn passing_is_searched(
    ctx: Context,
    b: Board,
    st: SearchModel,
    n: Node,
    beta: i32,
    depth: i32,
    checked: bool,
)
    requires
        0 <= n.ply < 127,
        -1_000_000 <= beta <= 1_000_000,
    ensures
        tries_null(b, depth, beta, checked) <==> depth >= 3 && !checked && beta < 99_000 && exists|
            s: int,
        |
            valid(s) && (#[trigger] b.squares[s] matches Some((c, pt)) && c == b.side && pt
                != PieceType::Pawn && pt != PieceType::King),
        tries_null(b, depth, beta, checked) ==> {
            let (v, t) = result_of(
                ctx,
                after_null(b),
                st,
                Node {
                    depth: (depth - 3) as i32,
                    alpha: (-beta) as i32,
                    beta: (1 - beta) as i32,
                    ply: (n.ply + 1) as i32,
                    prev: Move::null(),
                    excluded: Move::null(),
                    ext: n.ext,
                },
            );
            search_null(ctx, b, st, n, beta, depth, checked) == (wneg(v), t)
        },
        !tries_null(b, depth, beta, checked) ==> search_null(
            ctx,
            b,
            st,
            n,
            beta,
            depth,
            checked,
        ).1 == st,
{
    reveal(result_of);
}

/// The table's move is found to stand out only where a search of the same
/// position without it, half as deep, stays below its score by more than three for
/// every ply; the table must know the position to within three plies.
pub proof fn standing_out_is_searched(
    ctx: Context,
    b: Board,
    st: SearchModel,
    n: Node,
    a: TableAdvice,
    depth: i32,
    checked: bool,
)
    requires
        search_singular(ctx, b, st, n, a, depth, checked).0,
        depth <= 1_000,
        -1_000_000 <= a.tt_score <= 1_000_000,
    ensures
        n.excluded == Move::null(),
        a.tt_move != Move::null(),
        depth >= 4,
        !checked,
        a.tt_depth matches Some(d) && d >= depth - 3,
        result_of(
            ctx,
            b,
            st,
            Node {
                depth: (depth / 2) as i32,
                alpha: (a.tt_score - 3 * depth - 1) as i32,
                beta: (a.tt_score - 3 * depth) as i32,
                ply: n.ply,
                prev: n.prev,
                excluded: a.tt_move,
                ext: n.ext,
            },
        ).0 < a.tt_score - 3 * depth,
{
    reveal(result_of);
}

/// A capture settles a node early only outside the main line, out of check, near
/// the leaves, not as the first move, and with a capture as the table's move; the
/// static score must exceed beta by 169 at least, and so must what a search of the
/// capture gives. The score is then the mixture of that search and beta.
pub proof fn early_success_is_searched(
    f: Frame,
    st: SearchModel,
    m: Move,
    index: int,
    alpha: i32,
    best: i32,
) -> (k: Look)
    requires
        0 <= f.ply < 127,
        1 <= f.depth,
        -1_000_000_000 <= f.stand <= 1_000_000_000,
        search_probcut(f, st, m, index, alpha, best).0 is Some,
    ensures
        !f.pv,
        !f.checked,
        f.depth <= 8,
        index > 0,
        m.parts().flag.captures(),
        f.tt_move.parts().flag.captures(),
        -99_000 < f.beta < 99_000 || f.beta == i32::MIN,
        f.beta > i32::MIN ==> {
            let s = wneg(looked(f.ctx, f.b, m, f.ply as int, k).0);
            &&& f.stand >= f.beta + 169
            &&& s >= f.beta + 169
            &&& k.depth >= 0
            &&& search_probcut(f, st, m, index, alpha, best).0 == Some(mixed(s, f.beta))
        },
{
    reveal(result_of);
    Look {
        st,
        depth: probcut_depth(f, m, alpha, best),
        alpha: wsub(wneg(f.beta), 1),
        beta: wneg(alpha),
        ext: child_ext(f, m),
    }
}

/// The table settles a node only with an entry that is as deep as asked for, where
/// no move is left out: by an exact score, by a lower bound that reaches beta, or
/// by an upper bound that does not exceed alpha.
pub proof fn table_settles_what_it_knows(entry: Option<TTEntry>, n: Node)
    requires
        n.alpha < n.beta,
    ensures
        table_advice(entry, n).settled is Some <==> {
            &&& n.excluded == Move::null()
            &&& entry matches Some(e)
            &&& e.depth >= n.depth
            &&& e.bound == Bound::Exact || (e.bound == Bound::Lower && from_table(e.score, n.ply)
                >= n.beta) || (e.bound == Bound::Upper && from_table(e.score, n.ply) <= n.alpha)
        },
        table_advice(entry, n).settled matches Some(s) ==> s == from_table((entry->0).score, n.ply),
        entry matches Some(e) && (e.depth < n.depth || n.excluded != Move::null()) ==> table_advice(
            entry,
            n,
        ).alpha == n.alpha && table_advice(entry, n).beta == n.beta,
        n.alpha <= table_advice(entry, n).alpha,
        table_advice(entry, n).beta <= n.beta,
{
}

/// What a score says about the value of a node: at least so much where it reaches
/// beta, at most so much where it does not exceed alpha, and just so much between.
pub proof fn bounds_mean_what_they_say(best: i32, alpha: i32, beta: i32)
    requires
        alpha < beta,
    ensures
        bound_of(best, alpha, beta) == Bound::Lower <==> best >= beta,
        bound_of(best, alpha, beta) == Bound::Upper <==> best <= alpha,
        bound_of(best, alpha, beta) == Bound::Exact <==> alpha < best < beta,
{
}

/// At its leaves the search goes over to quiescence, for six plies, with checks.
pub proof fn leaves_are_quieted(ctx: Context, b: Board, st: SearchModel, n: Node)
    requires
        n.depth <= 0,
        final_score(b, st.reps, n.ply, legal_moves(b).len() > 0) is None,
        !st.pulse.after_visit().stopped,
    ensures
        result_of(ctx, b, st, n).0 == quieted(
            ctx,
            b,
            Quiet {
                reps: st.reps,
                pulse: st.pulse.after_visit(),
                alpha: n.alpha,
                beta: n.beta,
                qply: 6,
                checks: true,
                ply: n.ply,
            },
        ).0,
{
    reveal(result_of);
    reveal(quieted);
}

/// A quiet move that refutes a node becomes the first killer of its ply, the
/// former first the second; its history grows by the square of the depth; and it
/// becomes the answer to the move before. Nothing else is forgotten.
pub proof fn refutations_are_learnt(lore: Lore, ply: i32, depth: i32, prev: Move, m: Move)
    requires
        lore.wf(),
        0 <= ply < 128,
        0 <= depth <= 1_000,
        m.wf(),
        prev == Move::null() || prev.wf(),
        -1_000_000_000 <= lore.history[m.parts().from][m.parts().to] <= 1_000_000_000,
    ensures
        ({
            let l = learnt(lore, ply, depth, prev, m);
            let (from, to) = (m.parts().from, m.parts().to);
            &&& l.killers[ply as int][0] == m
            &&& lore.killers[ply as int][0] != m ==> l.killers[ply as int][1]
                == lore.killers[ply as int][0]
            &&& forall|i: int| 0 <= i < 128 && i != ply ==> #[trigger] l.killers[i] == lore.killers[i]
            &&& l.history[from][to] == lore.history[from][to] + depth * depth
            &&& forall|i: int, j: int|
                0 <= i < 64 && 0 <= j < 64 && !(i == from && j == to) ==> #[trigger] l.history[i][j]
                    == lore.history[i][j]
            &&& prev != Move::null() ==> l.countermove[prev.parts().from][prev.parts().to] == m
            &&& prev == Move::null() ==> l.countermove == lore.countermove
        }),
{
    let d = depth as int;
    assert(0 <= d * d <= 1_000_000) by (nonlinear_arith)
        requires
            0 <= d <= 1_000,
    ;
    squares_in_range(m);
    squares_in_range(prev);
}

proof fn squares_in_range(m: Move)
    ensures
        0 <= m.parts().from < 64,
        0 <= m.parts().to < 64,
{
    let x = m.0;
    assert(x & 0x3f < 64 && (x >> 6) & 0x3f < 64) by (bit_vector);
}

/// The order of the moves: the table's move first, then captures that do not lose,
/// the more they gain the earlier, then the two killers, the answer to the move
/// before, checks, and the other quiet moves by their history; captures that lose
/// come below zero, the more they lose the later.
pub proof fn moves_are_ranked(b: Board, m: Move, h: Hints)
    requires
        h.tt_move != Move::null(),
        h.killers.len() == 2,
    ensures
        ({
            let s = order_score(b, m, h) as int;
            let p = m.parts();
            let gain = exchange_value(b, p);
            &&& m == h.tt_move ==> s == 1_000_000
            &&& m != h.tt_move && p.flag.captures() && gain >= 0 ==> s == 500_000 + gain
            &&& m != h.tt_move && p.flag.captures() && gain < 0 ==> s == gain
            &&& m != h.tt_move && !p.flag.captures() ==> {
                let (first, second) = (m == h.killers[0], m == h.killers[1]);
                let answer = m == h.countermove && m != Move::null();
                &&& first ==> s == 90_000
                &&& !first && second ==> s == 89_000
                &&& !first && !second && answer ==> s == 88_000
                &&& !first && !second && !answer && checked_by_piece(b, p) ==> s == 50_000
                &&& !first && !second && !answer && !checked_by_piece(b, p) ==> s
                    == h.history[p.from][p.to]
            }
        }),
{
    if m.parts().flag.captures() {
        exchange_bounds(b, m.parts());
    }
}

} // verus!
