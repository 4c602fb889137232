//! Quiescence: captures, promotions, early checks and check evasions are
//! played out before a position is evaluated.
use vstd::prelude::*;
use crate::arith::{neg_i32, wadd, wneg};
use crate::checks::{checked_by_piece, compute_checking_squares, gives_check};
use crate::context::Context;
use crate::eval::{MATE_SCORE, evaluable, evaluate, moves_keep_evaluable, static_score};
use crate::exchange::{exchange_value, see};
use crate::legality::legal_keeps_playable;
use crate::listing::{legal_moves, lists_all};
use crate::movegen::{generate_legal_moves, is_in_check};
use crate::moves::{Move, MoveList};
use crate::position::{Position, made_is_restorable, restorable, taken_back, undo_of};
use crate::rules::{Board, after, fits, in_check, legal, playable};
use crate::search::helpers::{final_score, terminal_score};
use crate::search::thread_state::{Pulse, SearchState, group_pulse, heard, went_on};
use crate::zobrist::board_hash;

verus! {

broadcast use group_pulse;

/// Plies that quiescence goes at most.
pub const QUIESCENCE_MAX_PLY: i32 = 6;

/// A score, and how far the search has come with it.
pub type Visit = (i32, Pulse);

pub open spec fn larger(a: i32, b: i32) -> i32 {
    if b > a {
        b
    } else {
        a
    }
}

/// The moves among the first `n` that quiescence tries: captures and
/// promotions, and where `checks` is set also moves that give check.
pub open spec fn candidates(b: Board, moves: Seq<Move>, checks: bool, n: int) -> Seq<Move>
    decreases n,
{
    if n <= 0 {
        seq![]
    } else {
        let rest = candidates(b, moves, checks, n - 1);
        let p = moves[n - 1].parts();
        if p.flag.captures() || p.flag.promotes() || (checks && checked_by_piece(b, p)) {
            rest.push(moves[n - 1])
        } else {
            rest
        }
    }
}

/// Puts a move behind all that gain at least as much.
pub open spec fn insert_by_gain(b: Board, l: Seq<Move>, m: Move) -> Seq<Move>
    decreases l.len(),
{
    if l.len() == 0 || exchange_value(b, l.last().parts()) >= exchange_value(b, m.parts()) {
        l.push(m)
    } else {
        insert_by_gain(b, l.drop_last(), m).push(l.last())
    }
}

/// The moves by falling gain; among equals the order stays.
pub open spec fn by_gain(b: Board, l: Seq<Move>) -> Seq<Move>
    decreases l.len(),
{
    if l.len() == 0 {
        seq![]
    } else {
        insert_by_gain(b, by_gain(b, l.drop_last()), l.last())
    }
}

/// The gains fall from move to move.
pub open spec fn gains_fall(b: Board, l: Seq<Move>) -> bool {
    forall|i: int, j: int|
        0 <= i <= j < l.len() ==> exchange_value(b, (#[trigger] l[i]).parts()) >= exchange_value(
            b,
            (#[trigger] l[j]).parts(),
        )
}

proof fn insert_keeps_order(b: Board, l: Seq<Move>, m: Move)
    requires
        gains_fall(b, l),
    ensures
        gains_fall(b, insert_by_gain(b, l, m)),
        insert_by_gain(b, l, m).len() == l.len() + 1,
        l.len() > 0 ==> exchange_value(b, insert_by_gain(b, l, m).last().parts()) >= if exchange_value(
            b,
            l.last().parts(),
        ) < exchange_value(b, m.parts()) {
            exchange_value(b, l.last().parts())
        } else {
            exchange_value(b, m.parts())
        },
    decreases l.len(),
{
    let g = exchange_value(b, m.parts());
    if l.len() == 0 {
        assert(l.push(m)[0] == m);
    } else if exchange_value(b, l.last().parts()) >= g {
        let r = l.push(m);
        assert forall|i: int, j: int| 0 <= i <= j < r.len() implies exchange_value(
            b,
            (#[trigger] r[i]).parts(),
        ) >= exchange_value(b, (#[trigger] r[j]).parts()) by {
            if j < l.len() {
                assert(r[i] == l[i] && r[j] == l[j]);
            } else if i < l.len() {
                assert(r[i] == l[i]);
                assert(l[l.len() - 1] == l.last());
                assert(exchange_value(b, l[i].parts()) >= exchange_value(
                    b,
                    l[l.len() - 1].parts(),
                ));
            }
        }
    } else {
        let rest = l.drop_last();
        assert(gains_fall(b, rest)) by {
            assert forall|i: int, j: int| 0 <= i <= j < rest.len() implies exchange_value(
                b,
                (#[trigger] rest[i]).parts(),
            ) >= exchange_value(b, (#[trigger] rest[j]).parts()) by {
                assert(rest[i] == l[i] && rest[j] == l[j]);
            }
        }
        insert_keeps_order(b, rest, m);
        let head = insert_by_gain(b, rest, m);
        let r = head.push(l.last());
        assert forall|i: int, j: int| 0 <= i <= j < r.len() implies exchange_value(
            b,
            (#[trigger] r[i]).parts(),
        ) >= exchange_value(b, (#[trigger] r[j]).parts()) by {
            if j < head.len() {
                assert(r[i] == head[i] && r[j] == head[j]);
            } else if i < head.len() {
                assert(r[i] == head[i]);
                assert(head[head.len() - 1] == head.last());
                assert(exchange_value(b, head[i].parts()) >= exchange_value(
                    b,
                    head[head.len() - 1].parts(),
                ));
                if rest.len() > 0 {
                    assert(rest.last() == l[l.len() - 2]);
                    assert(exchange_value(b, l[l.len() - 2].parts()) >= exchange_value(
                        b,
                        l[l.len() - 1].parts(),
                    ));
                } else {
                    assert(head =~= seq![m]);
                }
            }
        }
    }
}

proof fn insert_keeps_moves(b: Board, l: Seq<Move>, m: Move)
    ensures
        insert_by_gain(b, l, m).to_multiset() == l.to_multiset().insert(m),
    decreases l.len(),
{
    broadcast use vstd::seq_lib::group_to_multiset_ensures;

    if l.len() > 0 && exchange_value(b, l.last().parts()) < exchange_value(b, m.parts()) {
        let rest = l.drop_last();
        insert_keeps_moves(b, rest, m);
        assert(rest.push(l.last()) =~= l);
        assert(insert_by_gain(b, rest, m).to_multiset().insert(l.last())
            =~= rest.to_multiset().insert(l.last()).insert(m));
    }
}

/// Candidates are tried by falling gain, and all of them.
pub proof fn by_gain_sorts(b: Board, l: Seq<Move>)
    ensures
        gains_fall(b, by_gain(b, l)),
        by_gain(b, l).to_multiset() == l.to_multiset(),
    decreases l.len(),
{
    broadcast use vstd::seq_lib::group_to_multiset_ensures;

    if l.len() > 0 {
        by_gain_sorts(b, l.drop_last());
        insert_keeps_order(b, by_gain(b, l.drop_last()), l.last());
        insert_keeps_moves(b, by_gain(b, l.drop_last()), l.last());
        assert(l.drop_last().push(l.last()) =~= l);
    } else {
        assert(l =~= seq![]);
    }
}

/// The result of quiescence for the side to move.
///
/// A search that is told to stop gives the static score. A finished game has
/// its score. In check every evasion is tried; else the
/// static score stands unless a candidate does better.
pub open spec fn q_search(
    ctx: Context,
    b: Board,
    reps: Seq<u64>,
    pulse: Pulse,
    alpha: i32,
    beta: i32,
    qply: int,
    checks: bool,
    ply: i32,
) -> Visit
    decreases
            (if qply > 0 {
                qply
            } else {
                0
            }),
            2int,
            0int,
{
    let visited = pulse.after_visit();
    let moves = legal_moves(b);
    let stand = static_score(ctx, b) as i32;
    match final_score(b, reps, ply, moves.len() > 0) {
        _ if visited.stopped => (stand, visited),
        Some(s) => (s, visited),
        None => if in_check(b, b.side) {
            if qply <= 0 {
                (stand, visited)
            } else {
                q_evade(
                    ctx,
                    b,
                    reps,
                    visited,
                    moves,
                    0,
                    alpha,
                    beta,
                    -100_000i32 as i32,
                    qply,
                    checks,
                    ply,
                )
            }
        } else if stand >= beta || qply <= 0 {
            (stand, visited)
        } else {
            let now = checks && qply > 4;
            let tried = by_gain(b, candidates(b, moves, now, moves.len() as int));
            q_capture(
                ctx,
                b,
                reps,
                visited,
                tried,
                0,
                stand,
                larger(alpha, stand),
                beta,
                stand,
                qply,
                now,
                ply,
            )
        },
    }
}

/// Goes on from evasion number `i`.
pub open spec fn q_evade(
    ctx: Context,
    b: Board,
    reps: Seq<u64>,
    pulse: Pulse,
    moves: Seq<Move>,
    i: int,
    alpha: i32,
    beta: i32,
    best: i32,
    qply: int,
    checks: bool,
    ply: i32,
) -> Visit
    decreases
            (if qply > 0 {
                qply
            } else {
                0
            }),
            1int,
            moves.len() - i,
{
    if i < 0 || i >= moves.len() || qply <= 0 {
        (best, pulse)
    } else {
        let (s, n) = q_search(
            ctx,
            after(b, moves[i].parts()),
            reps.push(board_hash(b)),
            pulse,
            wneg(beta),
            wneg(alpha),
            qply - 1,
            checks,
            wadd(ply, 1),
        );
        let best1 = larger(best, wneg(s));
        let alpha1 = larger(alpha, best1);
        if alpha1 >= beta {
            (best1, n)
        } else {
            q_evade(ctx, b, reps, n, moves, i + 1, alpha1, beta, best1, qply, checks, ply)
        }
    }
}

/// Goes on from candidate number `i`. A capture that cannot lift the score to
/// alpha is passed over.
pub open spec fn q_capture(
    ctx: Context,
    b: Board,
    reps: Seq<u64>,
    pulse: Pulse,
    moves: Seq<Move>,
    i: int,
    stand: i32,
    alpha: i32,
    beta: i32,
    best: i32,
    qply: int,
    checks: bool,
    ply: i32,
) -> Visit
    decreases
            (if qply > 0 {
                qply
            } else {
                0
            }),
            1int,
            moves.len() - i,
{
    if i < 0 || i >= moves.len() || qply <= 0 {
        (best, pulse)
    } else {
        let p = moves[i].parts();
        if !p.flag.promotes() && p.flag.captures() && wadd(
            wadd(stand, exchange_value(b, p) as i32),
            100,
        ) <= alpha {
            q_capture(ctx, b, reps, pulse, moves, i + 1, stand, alpha, beta, best, qply, checks, ply)
        } else {
            let (s, n) = q_search(
                ctx,
                after(b, p),
                reps.push(board_hash(b)),
                pulse,
                wneg(beta),
                wneg(alpha),
                qply - 1,
                checks && p.flag.captures(),
                wadd(ply, 1),
            );
            let best1 = larger(best, wneg(s));
            let alpha1 = larger(alpha, best1);
            if alpha1 >= beta {
                (best1, n)
            } else {
                q_capture(ctx, b, reps, n, moves, i + 1, stand, alpha1, beta, best1, qply, checks, ply)
            }
        }
    }
}

/// All moves of the list are legal.
pub open spec fn all_legal(b: Board, l: Seq<Move>) -> bool {
    forall|i: int| 0 <= i < l.len() ==> legal(b, #[trigger] l[i])
}

/// All moves of the list may be played.
pub open spec fn all_playable(b: Board, l: Seq<Move>) -> bool {
    forall|i: int| 0 <= i < l.len() ==> may_play(b, #[trigger] l[i])
}

pub proof fn playable_intro(b: Board, l: Seq<Move>)
    requires
        all_legal(b, l),
    ensures
        all_playable(b, l),
{
    reveal(may_play);
}

pub proof fn may_play_wf(b: Board, m: Move)
    requires
        may_play(b, m),
    ensures
        m.wf(),
{
    reveal(may_play);
}

pub proof fn legal_moves_legal(b: Board)
    requires
        lists_all(b, legal_moves(b)),
    ensures
        all_legal(b, legal_moves(b)),
{
    let l = legal_moves(b);
    assert forall|i: int| 0 <= i < l.len() implies legal(b, #[trigger] l[i]) by {
        assert(l.contains(l[i]));
    }
}

proof fn candidates_legal(b: Board, moves: Seq<Move>, checks: bool, n: int)
    requires
        all_legal(b, moves),
        n <= moves.len(),
    ensures
        all_legal(b, candidates(b, moves, checks, n)),
    decreases n,
{
    if n > 0 {
        candidates_legal(b, moves, checks, n - 1);
    }
}

proof fn insert_legal(b: Board, l: Seq<Move>, m: Move)
    requires
        all_legal(b, l),
        legal(b, m),
    ensures
        all_legal(b, insert_by_gain(b, l, m)),
        insert_by_gain(b, l, m).len() == l.len() + 1,
    decreases l.len(),
{
    if l.len() > 0 && exchange_value(b, l.last().parts()) < exchange_value(b, m.parts()) {
        assert(all_legal(b, l.drop_last()));
        insert_legal(b, l.drop_last(), m);
        assert(legal(b, l[l.len() - 1]));
    }
}

proof fn by_gain_legal(b: Board, l: Seq<Move>)
    requires
        all_legal(b, l),
    ensures
        all_legal(b, by_gain(b, l)),
        by_gain(b, l).len() == l.len(),
    decreases l.len(),
{
    if l.len() > 0 {
        assert(all_legal(b, l.drop_last()));
        by_gain_legal(b, l.drop_last());
        assert(legal(b, l[l.len() - 1]));
        insert_legal(b, by_gain(b, l.drop_last()), l.last());
    }
}

/// The moves that quiescence tries.
fn pick_candidates(pos: &Position, list: &MoveList, checks: bool) -> (r: Vec<Move>)
    requires
        pos.wf(),
        playable(pos@),
        all_legal(pos@, list@),
    ensures
        r@ == candidates(pos@, list@, checks, list@.len() as int),
{
    let check_ctx = compute_checking_squares(pos, pos.side_to_move);
    let mut out: Vec<Move> = Vec::new();
    let mut i: usize = 0;
    while i < list.count()
        invariant
            i <= list@.len(),
            pos.wf(),
            playable(pos@),
            all_legal(pos@, list@),
            check_ctx.describes(pos@, pos.side_to_move),
            out@ == candidates(pos@, list@, checks, i as int),
        decreases list@.len() - i,
    {
        let m = list.moves[i];
        proof {
            assert(legal(pos@, list@[i as int]));
            legal_keeps_playable(pos@, m.parts());
        }
        if m.flag().is_capture() || m.flag().is_promotion() {
            out.push(m);
        } else if checks {
            if gives_check(pos, m, &check_ctx) {
                out.push(m);
            }
        }
        i += 1;
    }
    out
}

/// Sorts moves by falling gain.
fn sort_by_gain(pos: &Position, l: Vec<Move>) -> (r: Vec<Move>)
    requires
        pos.wf(),
        all_legal(pos@, l@),
    ensures
        r@ == by_gain(pos@, l@),
{
    let ghost b = pos@;
    let mut out: Vec<Move> = Vec::new();
    let mut i: usize = 0;
    proof {
        assert(l@.take(0) =~= seq![]);
    }
    while i < l.len()
        invariant
            i <= l@.len(),
            pos.wf(),
            b == pos@,
            all_legal(b, l@),
            all_legal(b, out@),
            out@ == by_gain(b, l@.take(i as int)),
        decreases l@.len() - i,
    {
        let m = l[i];
        let gain = see(pos, m);
        let ghost sorted = out@;
        proof {
            assert(l@.take(i + 1).drop_last() =~= l@.take(i as int));
            assert(l@.take(i + 1).last() == m);
            assert(legal(b, l@[i as int]));
            insert_legal(b, sorted, m);
            assert(sorted.take(sorted.len() as int) =~= sorted);
            assert(sorted.skip(sorted.len() as int) =~= seq![]);
            assert(insert_by_gain(b, sorted, m) + Seq::<Move>::empty() =~= insert_by_gain(b, sorted, m));
        }
        out.push(m);
        let mut j: usize = out.len() - 1;
        let mut placed = false;
        while j > 0 && !placed
            invariant
                pos.wf(),
                b == pos@,
                all_legal(b, sorted),
                legal(b, m),
                gain == exchange_value(b, m.parts()),
                j <= sorted.len(),
                out@ =~= sorted.take(j as int).push(m) + sorted.skip(j as int),
                insert_by_gain(b, sorted, m) == insert_by_gain(b, sorted.take(j as int), m)
                    + sorted.skip(j as int),
                placed ==> insert_by_gain(b, sorted.take(j as int), m) == sorted.take(
                    j as int,
                ).push(m),
            decreases j,
                if placed {
                    0int
                } else {
                    1int
                },
        {
            let prev = out[j - 1];
            let ghost part = sorted.take(j as int);
            proof {
                assert(prev == sorted[j - 1]);
                assert(part.last() == prev);
                assert(part.drop_last() =~= sorted.take(j - 1));
                assert(legal(b, sorted[j - 1]));
            }
            if see(pos, prev) >= gain {
                placed = true;
            } else {
                out[j - 1] = m;
                out[j] = prev;
                proof {
                    assert(insert_by_gain(b, part, m) + sorted.skip(j as int) =~= insert_by_gain(
                        b,
                        sorted.take(j - 1),
                        m,
                    ) + sorted.skip(j - 1));
                }
                j -= 1;
            }
        }
        proof {
            if !placed {
                assert(sorted.take(0) =~= seq![]);
            }
            assert(out@ =~= insert_by_gain(b, sorted, m));
        }
        i += 1;
    }
    proof {
        assert(l@.take(i as int) =~= l@);
    }
    out
}

/// A position that can be searched: it is in order, it can be played from, and
/// it can be evaluated.
#[verifier::opaque]
pub open spec fn ready(pos: &Position) -> bool {
    pos.wf() && playable(pos@) && evaluable(*pos.ctx, pos@)
}

/// A move that the search may make.
#[verifier::opaque]
pub open spec fn may_play(b: Board, m: Move) -> bool {
    legal(b, m)
}

/// The position is as it was before.
pub open spec fn same_position(new: &Position, old: &Position) -> bool {
    &&& ready(new)
    &&& new@ == old@
    &&& new.ctx == old.ctx
    &&& new.undo_stack@ == old.undo_stack@
}

/// The state of the search is as it was before, but for the count of nodes and
/// what it has been told.
pub open spec fn same_search(new: &SearchState, old: &SearchState) -> bool {
    &&& new.wf()
    &&& new.same_limits(old)
    &&& new.shared == old.shared
    &&& new.local.lore() == old.local.lore()
    &&& new.local.rep_stack@ == old.local.rep_stack@
    &&& went_on(new.pulse(), old.pulse())
}

/// A legal move leads from a position that can be searched to another, and can
/// be taken back.
pub proof fn search_step(ctx: Context, b: Board, m: Move)
    requires
        playable(b),
        evaluable(ctx, b),
        legal(b, m),
    ensures
        m.wf(),
        fits(b, m.parts()),
        playable(after(b, m.parts())),
        evaluable(ctx, after(b, m.parts())),
        restorable(after(b, m.parts()), m.parts(), undo_of(b, m.parts())),
        taken_back(after(b, m.parts()), m.parts(), undo_of(b, m.parts())) == b,
{
    legal_keeps_playable(b, m.parts());
    moves_keep_evaluable(ctx, b, m.parts());
    made_is_restorable(b, m.parts());
}

/// The score of a position once the captures have been played out.
///
/// Whatever the search is told when it asks whether to stop, the result is that
/// of [`q_search`] under these answers. Position and search state are left as
/// they were, but for the count of nodes and the order to stop.
pub fn quiescence(
    pos: &mut Position,
    state: &mut SearchState,
    alpha: i32,
    beta: i32,
    qply: i32,
    allow_checks: bool,
    ply: i32,
) -> (r: i32)
    requires
        ready(old(pos)),
        old(state).wf(),
    ensures
        same_position(final(pos), old(pos)),
        same_search(final(state), old(state)),
        final(state)@.pulse.nodes > old(state)@.pulse.nodes,
        old(state).local.stopped ==> r == static_score(*old(pos).ctx, old(pos)@)
            && final(state)@.pulse.nodes == old(state)@.pulse.nodes + 1,
        forall|answers: Seq<bool>|
            #![trigger heard(answers, final(state).pulse())]
            heard(answers, final(state).pulse()) ==> (
                r,
                final(state).pulse().under(answers),
            ) == q_search(
            *old(pos).ctx,
            old(pos)@,
            old(state)@.reps,
            old(state).pulse().under(answers),
            alpha,
            beta,
            qply as int,
            allow_checks,
            ply,
        ),
    decreases
            (if qply > 0 {
                qply as int
            } else {
                0int
            }),
            2int,
            0int,
{
    let ghost b = pos@;
    proof {
        reveal(ready);
    }
    if state.visit() {
        return evaluate(pos, None);
    }
    let mut list = MoveList::new();
    generate_legal_moves(pos, &mut list);
    proof {
        assert(list@ =~= legal_moves(b));
        legal_moves_legal(b);
        playable_intro(b, list@);
    }
    let in_check_now = is_in_check(pos, pos.side_to_move);
    if let Some(s) = terminal_score(pos, state, ply, list.count() > 0) {
        return s;
    }
    if in_check_now {
        if qply <= 0 {
            return evaluate(pos, Some(&list));
        }
        return try_evasions(pos, state, &list, alpha, beta, qply, allow_checks, ply);
    }
    let stand_pat = evaluate(pos, Some(&list));
    if stand_pat >= beta {
        return stand_pat;
    }
    let mut floor = alpha;
    if stand_pat > floor {
        floor = stand_pat;
    }
    if qply <= 0 {
        return stand_pat;
    }
    let checks_now = allow_checks && qply > QUIESCENCE_MAX_PLY - 2;
    let picked = pick_candidates(pos, &list, checks_now);
    proof {
        candidates_legal(b, list@, checks_now, list@.len() as int);
        by_gain_legal(b, picked@);
    }
    let sorted = sort_by_gain(pos, picked);
    proof {
        playable_intro(b, sorted@);
    }
    try_captures(pos, state, &sorted, stand_pat, floor, beta, qply, checks_now, ply)
}

/// Makes a move, looks at the position behind it, and takes the move back.
fn try_move(
    pos: &mut Position,
    state: &mut SearchState,
    m: Move,
    alpha: i32,
    beta: i32,
    qply: i32,
    checks: bool,
    ply: i32,
) -> (r: i32)
    requires
        ready(old(pos)),
        old(state).wf(),
        may_play(old(pos)@, m),
        qply > 0,
    ensures
        same_position(final(pos), old(pos)),
        same_search(final(state), old(state)),
        forall|answers: Seq<bool>|
            #![trigger heard(answers, final(state).pulse())]
            heard(answers, final(state).pulse()) ==> ({
            let v = q_search(
                *old(pos).ctx,
                after(old(pos)@, m.parts()),
                old(state)@.reps.push(board_hash(old(pos)@)),
                old(state).pulse().under(answers),
                wneg(beta),
                wneg(alpha),
                qply - 1,
                checks,
                wadd(ply, 1),
            );
            r == wneg(v.0) && final(state).pulse().under(answers) == v.1
        }),
    decreases qply as int, 0int, 0int,
{
    let ghost b = pos@;
    let ghost stack = pos.undo_stack@;
    let ghost reps = state@.reps;
    proof {
        reveal(ready);
        reveal(may_play);
        search_step(*pos.ctx, b, m);
    }
    state.push_rep(pos.zobrist_key);
    pos.make_move(m);
    let score = quiescence(
        pos,
        state,
        neg_i32(beta),
        neg_i32(alpha),
        qply - 1,
        checks,
        ply.wrapping_add(1),
    );
    proof {
        assert(stack.push(undo_of(b, m.parts())).drop_last() =~= stack);
        assert(reps.push(board_hash(b)).drop_last() =~= reps);
    }
    pos.unmake_move(m);
    state.pop_rep();
    neg_i32(score)
}

/// Tries all evasions of a check.
fn try_evasions(
    pos: &mut Position,
    state: &mut SearchState,
    list: &MoveList,
    alpha: i32,
    beta: i32,
    qply: i32,
    allow_checks: bool,
    ply: i32,
) -> (r: i32)
    requires
        ready(old(pos)),
        old(state).wf(),
        all_playable(old(pos)@, list@),
        qply > 0,
    ensures
        same_position(final(pos), old(pos)),
        same_search(final(state), old(state)),
        forall|answers: Seq<bool>|
            #![trigger heard(answers, final(state).pulse())]
            heard(answers, final(state).pulse()) ==> (
                r,
                final(state).pulse().under(answers),
            ) == q_evade(
            *old(pos).ctx,
            old(pos)@,
            old(state)@.reps,
            old(state).pulse().under(answers),
            list@,
            0,
            alpha,
            beta,
            -100_000i32 as i32,
            qply as int,
            allow_checks,
            ply,
        ),
    decreases qply as int, 1int, 0int,
{
    let ghost b = pos@;
    let ghost ctx = *pos.ctx;
    let ghost reps = state@.reps;
    let mut low: i32 = alpha;
    let mut best: i32 = -MATE_SCORE;
    let mut i: usize = 0;
    while i < list.count()
        invariant
            i <= list@.len(),
            same_position(pos, old(pos)),
            same_search(state, old(state)),
            b == old(pos)@,
            ctx == *old(pos).ctx,
            reps == old(state)@.reps,
            all_playable(b, list@),
            qply > 0,
            forall|answers: Seq<bool>|
                #![trigger heard(answers, state.pulse())]
                heard(answers, state.pulse()) ==> q_evade(
                ctx,
                b,
                reps,
                old(state).pulse().under(answers),
                list@,
                0,
                alpha,
                beta,
                -100_000i32 as i32,
                qply as int,
                allow_checks,
                ply,
            ) == q_evade(
                ctx,
                b,
                reps,
                state.pulse().under(answers),
                list@,
                i as int,
                low,
                beta,
                best,
                qply as int,
                allow_checks,
                ply,
            ),
        decreases list@.len() - i,
    {
        let m = list.moves[i];
        proof {
            assert(may_play(b, list@[i as int]));
        }
        let score = try_move(pos, state, m, low, beta, qply, allow_checks, ply);
        if score > best {
            best = score;
        }
        if best > low {
            low = best;
        }
        if low >= beta {
            return best;
        }
        i += 1;
    }
    best
}

/// Tries the candidates one after the other.
fn try_captures(
    pos: &mut Position,
    state: &mut SearchState,
    moves: &Vec<Move>,
    stand_pat: i32,
    alpha: i32,
    beta: i32,
    qply: i32,
    checks: bool,
    ply: i32,
) -> (r: i32)
    requires
        ready(old(pos)),
        old(state).wf(),
        all_playable(old(pos)@, moves@),
        qply > 0,
    ensures
        same_position(final(pos), old(pos)),
        same_search(final(state), old(state)),
        forall|answers: Seq<bool>|
            #![trigger heard(answers, final(state).pulse())]
            heard(answers, final(state).pulse()) ==> (
                r,
                final(state).pulse().under(answers),
            ) == q_capture(
            *old(pos).ctx,
            old(pos)@,
            old(state)@.reps,
            old(state).pulse().under(answers),
            moves@,
            0,
            stand_pat,
            alpha,
            beta,
            stand_pat,
            qply as int,
            checks,
            ply,
        ),
    decreases qply as int, 1int, 0int,
{
    let ghost b = pos@;
    let ghost ctx = *pos.ctx;
    let ghost reps = state@.reps;
    let mut low: i32 = alpha;
    let mut best: i32 = stand_pat;
    let mut i: usize = 0;
    while i < moves.len()
        invariant
            i <= moves@.len(),
            same_position(pos, old(pos)),
            same_search(state, old(state)),
            b == old(pos)@,
            ctx == *old(pos).ctx,
            reps == old(state)@.reps,
            all_playable(b, moves@),
            qply > 0,
            forall|answers: Seq<bool>|
                #![trigger heard(answers, state.pulse())]
                heard(answers, state.pulse()) ==> q_capture(
                ctx,
                b,
                reps,
                old(state).pulse().under(answers),
                moves@,
                0,
                stand_pat,
                alpha,
                beta,
                stand_pat,
                qply as int,
                checks,
                ply,
            ) == q_capture(
                ctx,
                b,
                reps,
                state.pulse().under(answers),
                moves@,
                i as int,
                stand_pat,
                low,
                beta,
                best,
                qply as int,
                checks,
                ply,
            ),
        decreases moves@.len() - i,
    {
        let m = moves[i];
        proof {
            assert(may_play(b, moves@[i as int]));
        }
        proof {
            may_play_wf(b, m);
        }
        let flag = m.flag();
        let mut hopeless = false;
        if !flag.is_promotion() && flag.is_capture() {
            proof {
                reveal(ready);
                reveal(may_play);
            }
            let see_val = see(pos, m);
            hopeless = stand_pat.wrapping_add(see_val).wrapping_add(100) <= low;
        }
        if !hopeless {
            let score = try_move(
                pos,
                state,
                m,
                low,
                beta,
                qply,
                checks && flag.is_capture(),
                ply,
            );
            if score > best {
                best = score;
            }
            if best > low {
                low = best;
            }
            if low >= beta {
                return best;
            }
        }
        i += 1;
    }
    best
}

} // verus!
