//! The alpha-beta search.
//!
//! Every function here computes what its namesake in
//! [`crate::search::alphabeta`] says, unless the search is told to stop, and
//! leaves position and repetition stack as they were in any case.
use std::time::Instant;
use vstd::prelude::*;
use crate::arith::{abs_i32, div_toward_zero, mul_i32, neg_i32};
use crate::checks::{CheckingSquares, checked_by_piece, compute_checking_squares, gives_check};
use crate::context::Context;
use crate::eval::{MATE_SCORE, evaluate, static_score};
use crate::exchange::see;
use crate::legality::pass_keeps_playable;
use crate::listing::{legal_moves, lists_all};
use crate::movegen::{generate_legal_moves, is_in_check};
use crate::moves::{Move, MoveList};
use crate::pieces::Color;
use crate::position::{Position, null_move_round_trip, undo_of};
use crate::rules::{Board, fits, in_check, king_at_home};
use crate::search::alphabeta::{
    Frame, MAX_LINE_EXTENSIONS, NEAR_MATE, Node, TableAdvice, Tried, at_least_one,
    gives_up_high, hints_at, learnt, leaves_out, one_if, passed_over, plies_left, probcut_beta,
    search_body, search_child, search_inner, search_moves, search_node, search_null, search_one,
    search_probcut, search_singular, table_advice, tries_null, tries_probcut, tries_singular,
};
use crate::search::helpers::{final_score, score_from_tt, score_to_tt, terminal_score};
use crate::search::ordering::{MoveOrderer, Scored, best_index, best_index_range, rest_of, scored};
use crate::search::quiescence::{
    QUIESCENCE_MAX_PLY, all_playable, legal_moves_legal, may_play, may_play_wf, playable_intro,
    quiescence, ready, same_position, search_step,
};
use crate::search::thread_state::{SearchModel, SearchState, group_pulse, heard, went_on};
use crate::search::timing::nanos_since;
use crate::search::tt::{Bound, TTEntry};
use crate::single::mix;
use crate::zobrist::board_hash;

verus! {

broadcast use group_pulse;

/// What of a search's state is kept: limits and repetition stack. The search
/// has gone on from where it was.
pub open spec fn kept_search(new: &SearchState, old: &SearchState) -> bool {
    &&& new.wf()
    &&& new.same_limits(old)
    &&& new.local.rep_stack@ == old.local.rep_stack@
    &&& went_on(new.pulse(), old.pulse())
}

/// What stays the same while the moves of a node are tried.
#[derive(Clone, Copy)]
pub struct NodeFrame {
    pub depth: i32,
    pub beta: i32,
    pub ply: i32,
    pub prev: Move,
    pub excluded: Move,
    pub ext: i32,
    pub stand: i32,
    pub checked: bool,
    pub pv: bool,
    pub tt_move: Move,
}

impl NodeFrame {
    pub open spec fn frame(self, ctx: Context, b: Board) -> Frame {
        Frame {
            ctx,
            b,
            depth: self.depth,
            beta: self.beta,
            ply: self.ply,
            prev: self.prev,
            excluded: self.excluded,
            ext: self.ext,
            stand: self.stand,
            checked: self.checked,
            pv: self.pv,
            tt_move: self.tt_move,
        }
    }
}

/// What the table says at a node.
pub fn advise(entry: Option<TTEntry>, n: Node) -> (r: TableAdvice)
    ensures
        r == table_advice(entry, n),
{
    match entry {
        None => TableAdvice {
            settled: None,
            alpha: n.alpha,
            beta: n.beta,
            tt_move: Move::null(),
            tt_score: 0,
            tt_depth: None,
        },
        Some(e) => {
            let adjusted_score = score_from_tt(e.score, n.ply);
            let mut alpha = n.alpha;
            let mut beta = n.beta;
            let mut settled: Option<i32> = None;
            if n.excluded.is_null() && e.depth >= n.depth {
                match e.bound {
                    Bound::Exact => {
                        settled = Some(adjusted_score);
                    },
                    Bound::Lower => {
                        if adjusted_score > alpha {
                            alpha = adjusted_score;
                        }
                    },
                    Bound::Upper => {
                        if adjusted_score < beta {
                            beta = adjusted_score;
                        }
                    },
                }
                if alpha >= beta {
                    settled = Some(adjusted_score);
                }
            }
            TableAdvice {
                settled,
                alpha,
                beta,
                tt_move: e.best_move,
                tt_score: adjusted_score,
                tt_depth: Some(e.depth),
            }
        },
    }
}

/// Whether the table's move is compared with all others.
pub fn wants_singular(excluded: Move, a: &TableAdvice, depth: i32, beta: i32, checked: bool) -> (r: bool)
    ensures
        r == tries_singular(excluded, *a, depth, beta, checked),
{
    let deep_entry = match a.tt_depth {
        Some(d) => d as i64 >= depth as i64 - 3,
        None => false,
    };
    excluded.is_null() && !a.tt_move.is_null() && depth >= 4 && !checked && abs_i32(beta) < NEAR_MATE
        && deep_entry
}

/// Whether the node is given up as a success on its static score.
pub fn is_given_up(stand: i32, depth: i32, beta: i32, checked: bool, pv: bool) -> (r: bool)
    ensures
        r == gives_up_high(stand, depth, beta, checked, pv),
{
    !checked && !pv && depth <= 8 && abs_i32(beta) < NEAR_MATE && stand.wrapping_sub(
        mul_i32(85, depth),
    ) >= beta
}

fn reaches_index(index: usize, limit: i64) -> (r: bool)
    ensures
        r == (index >= limit),
{
    limit <= 0 || index as u64 >= limit as u64
}

/// Whether a move is passed over. `checks` says whether it gives check.
pub fn is_passed_over(
    pos: &Position,
    f: &NodeFrame,
    m: Move,
    index: usize,
    alpha: i32,
    checks: bool,
) -> (r: bool)
    requires
        pos.masks_wf(),
        m.wf(),
        checks == checked_by_piece(pos@, m.parts()),
    ensures
        r == passed_over(f.frame(*pos.ctx, pos@), m, index as int, alpha),
{
    let is_quiet = !m.flag().is_capture();
    let shallow = !f.pv && !f.checked && f.depth <= 8;
    if !shallow {
        return false;
    }
    if is_quiet {
        if checks {
            return false;
        }
        if reaches_index(index, 4 + mul_i32(f.depth, f.depth) as i64) {
            return true;
        }
        let margin = 90i32.wrapping_add(mul_i32(80, f.depth));
        index > 0 && f.stand.wrapping_add(margin) <= alpha
    } else {
        let see_margin = mul_i32(10, f.depth).wrapping_add(15);
        f.ply > 0 && index > 0 && see(pos, m) < neg_i32(see_margin)
    }
}

fn probcut_target(f: &NodeFrame, alpha: i32, best: i32, Ghost(ctx): Ghost<Context>, Ghost(b): Ghost<Board>) -> (r: i32)
    ensures
        r == probcut_beta(f.frame(ctx, b), alpha, best),
{
    let improving: i32 = if best > alpha {
        85
    } else {
        0
    };
    f.beta.wrapping_add(254).wrapping_sub(improving)
}

/// Whether a move is a capture; junk is not.
fn is_known_capture(m: Move) -> (r: bool)
    ensures
        r == (m.wf() && m.parts().flag.captures()),
{
    m.is_well_formed() && m.flag().is_capture()
}

/// Whether a capture is first tried in a shallow search.
fn wants_probcut(
    f: &NodeFrame,
    m: Move,
    index: usize,
    alpha: i32,
    best: i32,
    Ghost(ctx): Ghost<Context>,
    Ghost(b): Ghost<Board>,
) -> (r: bool)
    requires
        m.wf(),
    ensures
        r == tries_probcut(f.frame(ctx, b), m, index as int, alpha, best),
{
    !f.pv && !f.checked && f.depth <= 8 && m.flag().is_capture() && index > 0
        && !f.tt_move.is_null() && is_known_capture(f.tt_move) && abs_i32(f.beta) < NEAR_MATE
        && f.stand >= probcut_target(f, alpha, best, Ghost(ctx), Ghost(b))
}

fn not_below_one(x: i32) -> (r: i32)
    ensures
        r == at_least_one(x),
{
    if x > 1 {
        x
    } else {
        1
    }
}

fn one_if_true(x: bool) -> (r: i32)
    ensures
        r == one_if(x),
{
    if x {
        1
    } else {
        0
    }
}

/// Remembers a quiet move that refuted the node.
fn record_cutoff(state: &mut SearchState, ply: i32, depth: i32, prev: Move, m: Move)
    requires
        old(state).wf(),
        0 <= ply < 128,
    ensures
        final(state).wf(),
        final(state).same_limits(old(state)),
        final(state).local.rep_stack@ == old(state).local.rep_stack@,
        final(state).shared == old(state).shared,
        final(state).pulse() == old(state).pulse(),
        final(state).local.lore() == learnt(old(state).local.lore(), ply, depth, prev, m),
{
    let ghost before = state@.lore;
    let k: usize = ply as usize;
    let from: usize = m.from_sq() as usize;
    let to: usize = m.to_sq() as usize;
    proof {
        assert(before.killers[ply as int] == state.local.killers[ply as int]@);
        assert(before.history[from as int] == state.local.history[from as int]@);
    }
    if state.local.killers[k][0] != m {
        let first = state.local.killers[k][0];
        let pair: [Move; 2] = [m, first];
        state.local.killers[k] = pair;
        proof {
            assert(pair@ =~= seq![m, before.killers[ply as int][0]]);
        }
    }
    let mut row = state.local.history[from];
    let ghost old_row = row@;
    row[to] = row[to].wrapping_add(mul_i32(depth, depth));
    state.local.history[from] = row;
    if !prev.is_null() {
        let f: usize = prev.from_sq() as usize;
        let t: usize = prev.to_sq() as usize;
        proof {
            assert(before.countermove[f as int] == state.local.countermove[f as int]@);
        }
        let mut line = state.local.countermove[f];
        line[t] = m;
        state.local.countermove[f] = line;
    }
    proof {
        let l = learnt(before, ply, depth, prev, m);
        assert(state@.lore.killers =~= l.killers);
        assert(state@.lore.history =~= l.history);
        assert(state@.lore.countermove =~= l.countermove);
    }
}

/// Makes a move, searches the position behind it, and takes the move back. The
/// score is for the side that makes the move.
fn try_child(
    pos: &mut Position,
    state: &mut SearchState,
    f: &NodeFrame,
    m: Move,
    depth: i32,
    alpha: i32,
    beta: i32,
    ext: i32,
) -> (r: i32)
    requires
        ready(old(pos)),
        old(state).wf(),
        may_play(old(pos)@, m),
        0 <= f.ply < 127,
    ensures
        same_position(final(pos), old(pos)),
        kept_search(final(state), old(state)),
        forall|answers: Seq<bool>|
            #![trigger heard(answers, final(state).pulse())]
            heard(answers, final(state).pulse()) ==> (r, final(state).under(answers)) == search_child(
            f.frame(*old(pos).ctx, old(pos)@),
            old(state).under(answers),
            m,
            depth,
            alpha,
            beta,
            ext,
        ),
    decreases plies_left(f.ply), leaves_out(f.excluded), 0int, 0int,
{
    let ghost b = pos@;
    let ghost stack = pos.undo_stack@;
    let ghost reps = state@.reps;
    proof {
        reveal(ready);
        reveal(may_play);
        search_step(*pos.ctx, b, m);
    }
    pos.make_move(m);
    let ghost c = pos@;
    state.push_rep(pos.zobrist_key);
    let score = negamax(pos, state, depth, alpha, beta, f.ply + 1, m, Move::null(), ext);
    proof {
        assert(stack.push(undo_of(b, m.parts())).drop_last() =~= stack);
        assert(reps.push(board_hash(c)).drop_last() =~= reps);
    }
    state.pop_rep();
    pos.unmake_move(m);
    neg_i32(score)
}

/// Searches one move with the windows and depths that its place in the order
/// calls for. `checks` says whether it gives check.
fn try_one(
    pos: &mut Position,
    state: &mut SearchState,
    f: &NodeFrame,
    m: Move,
    index: usize,
    alpha: i32,
    checks: bool,
) -> (r: i32)
    requires
        ready(old(pos)),
        old(state).wf(),
        may_play(old(pos)@, m),
        m.wf(),
        0 <= f.ply < 127,
        checks == checked_by_piece(old(pos)@, m.parts()),
    ensures
        same_position(final(pos), old(pos)),
        kept_search(final(state), old(state)),
        forall|answers: Seq<bool>|
            #![trigger heard(answers, final(state).pulse())]
            heard(answers, final(state).pulse()) ==> (r, final(state).under(answers)) == search_one(
            f.frame(*old(pos).ctx, old(pos)@),
            old(state).under(answers),
            m,
            index as int,
            alpha,
        ),
    decreases plies_left(f.ply), leaves_out(f.excluded), 1int, 0int,
{
    let extra = one_if_true(checks && f.ext < MAX_LINE_EXTENSIONS);
    let depth = f.depth.wrapping_sub(1).wrapping_add(extra);
    let ext = f.ext.wrapping_add(extra);
    let down = neg_i32(alpha);
    if index == 0 {
        return try_child(pos, state, f, m, depth, neg_i32(f.beta), down, ext);
    }
    let do_lmr = !m.flag().is_capture() && !checks && f.depth >= 3 && index >= 3;
    let mut reduced = depth;
    if do_lmr {
        let reduction: i32 = if index >= 9 {
            2
        } else {
            1
        };
        reduced = not_below_one(depth.wrapping_sub(reduction));
    }
    let edge = down.wrapping_sub(1);
    let mut score = try_child(pos, state, f, m, reduced, edge, down, ext);
    if do_lmr && score > alpha {
        score = try_child(pos, state, f, m, depth, edge, down, ext);
        if score > alpha && score < f.beta {
            score = try_child(pos, state, f, m, depth, neg_i32(f.beta), down, ext);
        }
    } else if !do_lmr && score > alpha && score < f.beta {
        score = try_child(pos, state, f, m, depth, neg_i32(f.beta), down, ext);
    }
    score
}

/// Tries a capture in a shallow search first, where that is called for.
fn try_probcut(
    pos: &mut Position,
    state: &mut SearchState,
    f: &NodeFrame,
    m: Move,
    index: usize,
    alpha: i32,
    best: i32,
    checks: bool,
) -> (r: Option<i32>)
    requires
        ready(old(pos)),
        old(state).wf(),
        may_play(old(pos)@, m),
        m.wf(),
        0 <= f.ply < 127,
        checks == checked_by_piece(old(pos)@, m.parts()),
    ensures
        same_position(final(pos), old(pos)),
        kept_search(final(state), old(state)),
        forall|answers: Seq<bool>|
            #![trigger heard(answers, final(state).pulse())]
            heard(answers, final(state).pulse()) ==> (r, final(state).under(answers)) == search_probcut(
            f.frame(*old(pos).ctx, old(pos)@),
            old(state).under(answers),
            m,
            index as int,
            alpha,
            best,
        ),
    decreases plies_left(f.ply), leaves_out(f.excluded), 1int, 0int,
{
    let ghost ctx = *pos.ctx;
    let ghost b = pos@;
    if !wants_probcut(f, m, index, alpha, best, Ghost(ctx), Ghost(b)) {
        return None;
    }
    let target = probcut_target(f, alpha, best, Ghost(ctx), Ghost(b));
    let above = f.stand.wrapping_sub(target);
    let less = div_toward_zero(above as i64, 319) as i32;
    let reduced = not_below_one(f.depth.wrapping_sub(less));
    let extra = one_if_true(checks && f.ext < MAX_LINE_EXTENSIONS);
    let started = Instant::now();
    let score = try_child(
        pos,
        state,
        f,
        m,
        reduced.wrapping_sub(1).wrapping_add(extra),
        neg_i32(f.beta).wrapping_sub(1),
        neg_i32(alpha),
        f.ext.wrapping_add(extra),
    );
    state.local.time_in_probcut_ns = state.local.time_in_probcut_ns.wrapping_add(
        nanos_since(&started),
    );
    if score >= target {
        Some(mix(score, f.beta))
    } else {
        None
    }
}

/// The remaining moves of a node may all be played.
pub open spec fn scored_playable(b: Board, l: Seq<Scored>) -> bool {
    forall|i: int| 0 <= i < l.len() ==> may_play(b, (#[trigger] l[i]).1)
}

proof fn rest_playable(b: Board, l: Seq<Scored>)
    requires
        scored_playable(b, l),
        l.len() > 0,
    ensures
        may_play(b, l[best_index(l, l.len() as int)].1),
        scored_playable(b, rest_of(l)),
{
    best_index_range(l, l.len() as int);
    let j = best_index(l, l.len() as int);
    assert(may_play(b, l[j].1));
    assert forall|i: int| 0 <= i < rest_of(l).len() implies may_play(b, (#[trigger] rest_of(l)[i]).1) by {
        assert(may_play(b, l[0].1));
        assert(may_play(b, l[i + 1].1));
    }
}

/// Whether a move gives check.
fn move_checks(pos: &Position, m: Move, check_ctx: &CheckingSquares) -> (r: bool)
    requires
        ready(pos),
        may_play(pos@, m),
        check_ctx.describes(pos@, pos.side_to_move),
    ensures
        r == checked_by_piece(pos@, m.parts()),
{
    proof {
        reveal(ready);
        reveal(may_play);
        search_step(*pos.ctx, pos@, m);
    }
    gives_check(pos, m, check_ctx)
}

/// How the moves of a node came out.
pub struct MovesTried {
    pub settled: Option<i32>,
    pub best: i32,
    pub best_move: Move,
}

/// The outcome of trying the moves is the one that the rules of the search
/// give.
pub open spec fn tried_as(r: MovesTried, st: SearchModel, t: Tried) -> bool {
    r.settled == t.settled && r.best == t.best && r.best_move == t.best_move && st == t.st
}

/// Tries the moves of a node, best first.
fn try_moves(
    pos: &mut Position,
    state: &mut SearchState,
    f: &NodeFrame,
    list: &mut MoveList,
    orderer: &mut MoveOrderer,
    check_ctx: &CheckingSquares,
    alpha: i32,
) -> (r: MovesTried)
    requires
        ready(old(pos)),
        old(state).wf(),
        0 <= f.ply < 127,
        old(orderer).wf(old(list)),
        old(orderer).next == 0,
        scored_playable(old(pos)@, old(orderer).remaining(old(list))),
        check_ctx.describes(old(pos)@, old(pos).side_to_move),
    ensures
        same_position(final(pos), old(pos)),
        kept_search(final(state), old(state)),
        forall|answers: Seq<bool>|
            #![trigger heard(answers, final(state).pulse())]
            heard(answers, final(state).pulse()) ==> tried_as(
            r,
            final(state).under(answers),
            search_moves(
                f.frame(*old(pos).ctx, old(pos)@),
                old(state).under(answers),
                old(orderer).remaining(old(list)),
                0,
                alpha,
                -100_000i32 as i32,
                Move::null(),
            ),
        ),
    decreases plies_left(f.ply), leaves_out(f.excluded), 2int, 0int,
{
    let ghost b = pos@;
    let ghost ctx = *pos.ctx;
    let ghost fr = f.frame(ctx, b);
    let mut low: i32 = alpha;
    let mut best: i32 = -MATE_SCORE;
    let mut best_move = Move::null();
    let mut early: Option<i32> = None;
    let mut going = true;
    let ghost total = list@.len();
    while going
        invariant
            same_position(pos, old(pos)),
            kept_search(state, old(state)),
            b == old(pos)@,
            ctx == *old(pos).ctx,
            fr == f.frame(ctx, b),
            0 <= f.ply < 127,
            orderer.wf(list),
            orderer.next <= total,
            total == list@.len(),
            scored_playable(b, orderer.remaining(list)),
            check_ctx.describes(b, b.side),
            going ==> early is None,
            forall|answers: Seq<bool>|
                #![trigger heard(answers, state.pulse())]
                heard(answers, state.pulse()) ==> search_moves(
                    fr,
                    old(state).under(answers),
                    old(orderer).remaining(old(list)),
                    0,
                    alpha,
                    -100_000i32 as i32,
                    Move::null(),
                ) == if going {
                    search_moves(
                        fr,
                        state.under(answers),
                        orderer.remaining(list),
                        orderer.next as int,
                        low,
                        best,
                        best_move,
                    )
                } else {
                    Tried { settled: early, best, best_move, st: state.under(answers) }
                },
        decreases
                if going {
                    total - orderer.next + 1
                } else {
                    0
                },
    {
        let ghost l = orderer.remaining(list);
        match orderer.next_move(list) {
            None => {
                going = false;
            },
            Some((index, m)) => {
                proof {
                    rest_playable(b, l);
                    may_play_wf(b, m);
                    reveal(ready);
                }
                let checks = move_checks(pos, m, check_ctx);
                let skipped = (!f.excluded.is_null() && m == f.excluded) || is_passed_over(
                    pos,
                    f,
                    m,
                    index,
                    low,
                    checks,
                );
                if !skipped {
                    early = try_probcut(pos, state, f, m, index, low, best, checks);
                    if early.is_some() {
                        going = false;
                    } else {
                        let score = try_one(pos, state, f, m, index, low, checks);
                        if score > best {
                            best = score;
                            best_move = m;
                        }
                        if best > low {
                            low = best;
                        }
                        if low >= f.beta {
                            if !m.flag().is_capture() {
                                record_cutoff(state, f.ply, f.depth, f.prev, m);
                            }
                            going = false;
                        }
                    }
                }
            },
        }
    }
    MovesTried { settled: early, best, best_move }
}

/// Searches the position after passing, where that is tried; the score is for
/// the side that passes.
fn try_null(
    pos: &mut Position,
    state: &mut SearchState,
    n: &Node,
    beta: i32,
    depth: i32,
    checked: bool,
) -> (r: Option<i32>)
    requires
        ready(old(pos)),
        old(state).wf(),
        0 <= n.ply < 127,
        checked == in_check(old(pos)@, old(pos)@.side),
    ensures
        same_position(final(pos), old(pos)),
        kept_search(final(state), old(state)),
        r is Some <==> tries_null(old(pos)@, depth, beta, checked),
        forall|answers: Seq<bool>|
            #![trigger heard(answers, final(state).pulse())]
            heard(answers, final(state).pulse()) ==> ({
            let v = search_null(*old(pos).ctx, old(pos)@, old(state).under(answers), *n, beta, depth, checked);
            final(state).under(answers) == v.1 && (r matches Some(s) ==> s == v.0)
        }),
    decreases plies_left(n.ply), leaves_out(n.excluded), 1int, 0int,
{
    let ghost b = pos@;
    proof {
        reveal(ready);
    }
    if !(depth >= 3 && !checked && beta < NEAR_MATE && pos.non_pawn_king_material(
        pos.side_to_move,
    )) {
        return None;
    }
    proof {
        pass_keeps_playable(b);
        assert(king_at_home(b, Color::White) && king_at_home(b, Color::Black));
    }
    let prev_ep = pos.make_null_move();
    let down = neg_i32(beta);
    let score = negamax(
        pos,
        state,
        depth - 3,
        down,
        down.wrapping_add(1),
        n.ply + 1,
        Move::null(),
        Move::null(),
        n.ext,
    );
    proof {
        null_move_round_trip(b);
    }
    pos.unmake_null_move(prev_ep);
    Some(neg_i32(score))
}

/// Whether the table's move stands out from all others.
fn try_singular(
    pos: &mut Position,
    state: &mut SearchState,
    n: &Node,
    a: &TableAdvice,
    depth: i32,
    checked: bool,
) -> (r: bool)
    requires
        ready(old(pos)),
        old(state).wf(),
    ensures
        same_position(final(pos), old(pos)),
        kept_search(final(state), old(state)),
        forall|answers: Seq<bool>|
            #![trigger heard(answers, final(state).pulse())]
            heard(answers, final(state).pulse()) ==> (r, final(state).under(answers)) == search_singular(
            *old(pos).ctx,
            old(pos)@,
            old(state).under(answers),
            *n,
            *a,
            depth,
            checked,
        ),
    decreases plies_left(n.ply), leaves_out(n.excluded), 1int, 0int,
{
    if !wants_singular(n.excluded, a, depth, a.beta, checked) {
        return false;
    }
    let singular_beta = a.tt_score.wrapping_sub(mul_i32(3, depth));
    let started = Instant::now();
    let score = negamax(
        pos,
        state,
        depth / 2,
        singular_beta.wrapping_sub(1),
        singular_beta,
        n.ply,
        n.prev,
        a.tt_move,
        n.ext,
    );
    state.local.time_in_singular_ext_ns = state.local.time_in_singular_ext_ns.wrapping_add(
        nanos_since(&started),
    );
    score < singular_beta
}

/// The legal moves of a position.
pub fn list_moves(pos: &Position) -> (r: MoveList)
    requires
        ready(pos),
    ensures
        r@ == legal_moves(pos@),
        all_playable(pos@, r@),
        lists_all(pos@, legal_moves(pos@)),
{
    proof {
        reveal(ready);
    }
    let mut list = MoveList::new();
    generate_legal_moves(pos, &mut list);
    proof {
        assert(list@ =~= legal_moves(pos@));
        legal_moves_legal(pos@);
        playable_intro(pos@, list@);
    }
    list
}

fn static_eval(pos: &Position) -> (r: i32)
    requires
        ready(pos),
    ensures
        r == static_score(*pos.ctx, pos@),
{
    proof {
        reveal(ready);
    }
    evaluate(pos, None)
}

/// The score and the search state of a node that is already decided, or
/// nothing.
fn settle(pos: &Position, state: &SearchState, ply: i32, has_moves: bool) -> (r: Option<i32>)
    requires
        ready(pos),
    ensures
        r == final_score(pos@, state@.reps, ply, has_moves),
{
    proof {
        reveal(ready);
    }
    terminal_score(pos, state, ply, has_moves)
}

fn king_attacked(pos: &Position) -> (r: bool)
    requires
        ready(pos),
    ensures
        r == in_check(pos@, pos@.side),
{
    proof {
        reveal(ready);
    }
    is_in_check(pos, pos.side_to_move)
}

/// The order of the moves of a node.
fn order_moves(
    pos: &Position,
    state: &SearchState,
    list: &MoveList,
    n: &Node,
    tt_move: Move,
) -> (r: (MoveOrderer, CheckingSquares))
    requires
        ready(pos),
        all_playable(pos@, list@),
        0 <= n.ply < 127,
    ensures
        r.0.wf(list),
        r.0.next == 0,
        r.0.remaining(list) == scored(pos@, list@, hints_at(state@.lore, *n, tt_move)),
        scored_playable(pos@, r.0.remaining(list)),
        r.1.describes(pos@, pos.side_to_move),
{
    let ghost b = pos@;
    proof {
        reveal(ready);
        assert forall|i: int| 0 <= i < list@.len() implies (#[trigger] list@[i]).wf() && fits(
            b,
            list@[i].parts(),
        ) by {
            assert(may_play(b, list@[i]));
            reveal(may_play);
            search_step(*pos.ctx, b, list@[i]);
        }
    }
    let check_ctx = compute_checking_squares(pos, pos.side_to_move);
    let killers = state.local.killers[n.ply as usize];
    let countermove = if !n.prev.is_null() {
        state.local.countermove[n.prev.from_sq() as usize][n.prev.to_sq() as usize]
    } else {
        Move::null()
    };
    let orderer = MoveOrderer::new(
        pos,
        list,
        tt_move,
        &killers,
        countermove,
        &state.local.history,
        &check_ctx,
    );
    proof {
        let h = hints_at(state@.lore, *n, tt_move);
        assert(h.killers == killers@);
        assert(h.countermove == countermove);
        assert forall|i: int| 0 <= i < list@.len() implies may_play(
            b,
            (#[trigger] orderer.remaining(list)[i]).1,
        ) by {
            assert(may_play(b, list@[i]));
        }
    }
    (orderer, check_ctx)
}

/// Searches a node that neither the rules nor the table settle.
fn search_open_node(
    pos: &mut Position,
    state: &mut SearchState,
    list: &mut MoveList,
    n: &Node,
    a: &TableAdvice,
) -> (r: i32)
    requires
        ready(old(pos)),
        old(state).wf(),
        0 <= n.ply < 127,
        n.depth > 0,
        old(list)@ == legal_moves(old(pos)@),
        all_playable(old(pos)@, old(list)@),
    ensures
        same_position(final(pos), old(pos)),
        kept_search(final(state), old(state)),
        forall|answers: Seq<bool>|
            #![trigger heard(answers, final(state).pulse())]
            heard(answers, final(state).pulse()) ==> (r, final(state).under(answers)) == search_inner(
            *old(pos).ctx,
            old(pos)@,
            old(state).under(answers),
            *n,
            *a,
        ),
    decreases plies_left(n.ply), leaves_out(n.excluded), 4int, 0int,
{
    let checked = king_attacked(pos);
    let pv = a.beta.wrapping_sub(a.alpha) > 1;
    let mut depth = n.depth;
    if a.tt_move.is_null() && depth >= 4 && !checked {
        depth = depth - 1;
    }
    if let Some(score) = try_null(pos, state, n, a.beta, depth, checked) {
        if score >= a.beta {
            return a.beta;
        }
    }
    let stands_out = try_singular(pos, state, n, a, depth, checked);
    let extra = one_if_true(stands_out && n.ext < MAX_LINE_EXTENSIONS);
    depth = depth.wrapping_add(extra);
    let ext = n.ext.wrapping_add(extra);
    search_node_body(pos, state, list, n, a, depth, ext, checked, pv)
}

/// Searches the moves of a node, unless its static score settles it.
fn search_node_body(
    pos: &mut Position,
    state: &mut SearchState,
    list: &mut MoveList,
    n: &Node,
    a: &TableAdvice,
    depth: i32,
    ext: i32,
    checked: bool,
    pv: bool,
) -> (r: i32)
    requires
        ready(old(pos)),
        old(state).wf(),
        0 <= n.ply < 127,
        old(list)@ == legal_moves(old(pos)@),
        all_playable(old(pos)@, old(list)@),
    ensures
        same_position(final(pos), old(pos)),
        kept_search(final(state), old(state)),
        forall|answers: Seq<bool>|
            #![trigger heard(answers, final(state).pulse())]
            heard(answers, final(state).pulse()) ==> (r, final(state).under(answers)) == search_body(
            *old(pos).ctx,
            old(pos)@,
            old(state).under(answers),
            *n,
            *a,
            depth,
            ext,
            checked,
            pv,
        ),
    decreases plies_left(n.ply), leaves_out(n.excluded), 3int, 0int,
{
    let stand = if checked {
        0
    } else {
        let started = Instant::now();
        let val = static_eval(pos);
        state.local.time_in_static_eval_ns = state.local.time_in_static_eval_ns.wrapping_add(
            nanos_since(&started),
        );
        val
    };
    if is_given_up(stand, depth, a.beta, checked, pv) {
        return stand.wrapping_sub(mul_i32(85, depth));
    }
    let f = NodeFrame {
        depth,
        beta: a.beta,
        ply: n.ply,
        prev: n.prev,
        excluded: n.excluded,
        ext,
        stand,
        checked,
        pv,
        tt_move: a.tt_move,
    };
    let (mut orderer, check_ctx) = order_moves(pos, state, list, n, a.tt_move);
    let tried = try_moves(pos, state, &f, list, &mut orderer, &check_ctx, a.alpha);
    if let Some(s) = tried.settled {
        return s;
    }
    if n.excluded.is_null() {
        let bound = if tried.best <= n.alpha {
            Bound::Upper
        } else if tried.best >= a.beta {
            Bound::Lower
        } else {
            Bound::Exact
        };
        let key = position_key(pos);
        state.shared.store(key, depth, score_to_tt(tried.best, n.ply), bound, tried.best_move);
    }
    tried.best
}

fn position_key(pos: &Position) -> (r: u64)
    requires
        ready(pos),
    ensures
        r == board_hash(pos@),
{
    proof {
        reveal(ready);
    }
    pos.zobrist_key
}

/// The alpha-beta search of a position.
///
/// `excluded` is a move to leave out, or the null move. `ext` counts the
/// extensions already given on this line. Whatever the search is told when it
/// asks whether to stop, the result is that of [`search_node`] under these
/// answers.
pub fn negamax(
    pos: &mut Position,
    state: &mut SearchState,
    depth: i32,
    alpha: i32,
    beta: i32,
    ply: i32,
    prev_move: Move,
    excluded: Move,
    ext: i32,
) -> (r: i32)
    requires
        ready(old(pos)),
        old(state).wf(),
    ensures
        same_position(final(pos), old(pos)),
        kept_search(final(state), old(state)),
        final(state)@.pulse.nodes > old(state)@.pulse.nodes,
        old(state).local.stopped ==> {
            &&& r == static_score(*old(pos).ctx, old(pos)@)
            &&& final(state)@.pulse.nodes == old(state)@.pulse.nodes + 1
            &&& final(state).shared == old(state).shared
            &&& final(state).local.lore() == old(state).local.lore()
        },
        forall|answers: Seq<bool>|
            #![trigger heard(answers, final(state).pulse())]
            heard(answers, final(state).pulse()) ==> (r, final(state).under(answers)) == search_node(
            *old(pos).ctx,
            old(pos)@,
            old(state).under(answers),
            (Node { depth, alpha, beta, ply, prev: prev_move, excluded, ext }),
        ),
    decreases plies_left(ply), leaves_out(excluded), 5int, 0int,
{
    if state.visit() {
        return static_eval(pos);
    }
    let mut list = list_moves(pos);
    if let Some(s) = settle(pos, state, ply, list.count() > 0) {
        return s;
    }
    if depth <= 0 {
        return quiescence(pos, state, alpha, beta, QUIESCENCE_MAX_PLY, true, ply);
    }
    if ply < 0 || ply >= 127 {
        return static_eval(pos);
    }
    let n = Node { depth, alpha, beta, ply, prev: prev_move, excluded, ext };
    let key = position_key(pos);
    let started = Instant::now();
    let entry = state.shared.probe(key);
    state.local.time_in_tt_probe_ns = state.local.time_in_tt_probe_ns.wrapping_add(
        nanos_since(&started),
    );
    let a = advise(entry, n);
    if let Some(s) = a.settled {
        return s;
    }
    search_open_node(pos, state, &mut list, &n, &a)
}

} // verus!
