//! A search that has been stopped stays stopped: what its state says at the end
//! holds of every search within it.
use vstd::prelude::*;
use crate::arith::{wneg, wsub};
use crate::moves::Move;
use crate::search::alphabeta::{
    Frame, child_depth, child_ext, passed_over, reduced_depth, rest_len, search_child,
    search_moves, search_one, search_probcut,
};
use crate::search::ordering::{Scored, best_index, rest_of};
use crate::search::quiescence::larger;
use crate::search::thread_state::SearchModel;

verus! {

pub proof fn child_stays(
    f: Frame,
    st: SearchModel,
    m: Move,
    depth: i32,
    alpha: i32,
    beta: i32,
    ext: i32,
)
    requires
        st.pulse.stopped,
    ensures
        search_child(f, st, m, depth, alpha, beta, ext).1.pulse.stopped,
{
}

pub proof fn one_stays(f: Frame, st: SearchModel, m: Move, index: int, alpha: i32)
    requires
        st.pulse.stopped,
    ensures
        search_one(f, st, m, index, alpha).1.pulse.stopped,
{
    let depth = child_depth(f, m);
    let ext = child_ext(f, m);
    let (down, edge) = (wneg(alpha), wsub(wneg(alpha), 1));
    if index != 0 {
        child_stays(f, st, m, reduced_depth(f, m, index), edge, down, ext);
        let (s1, st1) = search_child(f, st, m, reduced_depth(f, m, index), edge, down, ext);
        child_stays(f, st1, m, depth, edge, down, ext);
        let (s2, st2) = search_child(f, st1, m, depth, edge, down, ext);
        child_stays(f, st2, m, depth, wneg(f.beta), down, ext);
        child_stays(f, st1, m, depth, wneg(f.beta), down, ext);
    }
}

pub proof fn probcut_stays(
    f: Frame,
    st: SearchModel,
    m: Move,
    index: int,
    alpha: i32,
    best: i32,
)
    requires
        st.pulse.stopped,
    ensures
        search_probcut(f, st, m, index, alpha, best).1.pulse.stopped,
{
}

/// Trying the moves of a node keeps an order to stop.
pub proof fn moves_stay(
    f: Frame,
    st: SearchModel,
    l: Seq<Scored>,
    index: int,
    alpha: i32,
    best: i32,
    best_move: Move,
)
    requires
        st.pulse.stopped,
    ensures
        search_moves(f, st, l, index, alpha, best, best_move).st.pulse.stopped,
    decreases l.len(),
{
    if l.len() > 0 {
        rest_len(l);
        let m = l[best_index(l, l.len() as int)].1;
        let rest = rest_of(l);
        if (f.excluded != Move::null() && m == f.excluded) || passed_over(f, m, index, alpha) {
            moves_stay(f, st, rest, index + 1, alpha, best, best_move);
        } else {
            probcut_stays(f, st, m, index, alpha, best);
            let (settled, st1) = search_probcut(f, st, m, index, alpha, best);
            if settled is None {
                one_stays(f, st1, m, index, alpha);
                let (s, st2) = search_one(f, st1, m, index, alpha);
                let best1 = larger(best, s);
                let move1 = if s > best {
                    m
                } else {
                    best_move
                };
                let alpha1 = larger(alpha, best1);
                if alpha1 < f.beta {
                    moves_stay(f, st2, rest, index + 1, alpha1, best1, move1);
                }
            }
        }
    }
}

} // verus!
