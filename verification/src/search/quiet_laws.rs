//! What quiescence looks at, and what its result has to do with it.
use vstd::prelude::*;
use crate::arith::{wadd, wneg};
use crate::checks::checked_by_piece;
use crate::context::Context;
use crate::eval::static_score;
use crate::exchange::{exchange_bounds, exchange_value};
use crate::listing::{legal_moves, moves_are_listed};
use crate::moves::Move;
use crate::rules::{Board, after, in_check, legal};
use crate::search::helpers::final_score;
use crate::search::quiescence::{
    Visit, by_gain, by_gain_sorts, candidates, larger, q_capture, q_evade, q_search,
};
use crate::search::thread_state::Pulse;
use crate::zobrist::board_hash;

verus! {

/// Where quiescence stands: the positions on the way, the window, how many plies
/// it still goes, whether it tries checks, and how far it is from the root.
pub struct Quiet {
    pub reps: Seq<u64>,
    pub pulse: Pulse,
    pub alpha: i32,
    pub beta: i32,
    pub qply: int,
    pub checks: bool,
    pub ply: i32,
}

/// What quiescence gives.
#[verifier::opaque]
pub open spec fn quieted(ctx: Context, b: Board, q: Quiet) -> Visit {
    q_search(ctx, b, q.reps, q.pulse, q.alpha, q.beta, q.qply, q.checks, q.ply)
}

/// What quiescence gives for a move, for the side that makes it.
pub open spec fn tried(
    ctx: Context,
    b: Board,
    m: Move,
    q: Quiet,
    pulse: Pulse,
    alpha: i32,
    checks: bool,
) -> i32 {
    wneg(
        quieted(
            ctx,
            after(b, m.parts()),
            Quiet {
                reps: q.reps.push(board_hash(b)),
                pulse,
                alpha: wneg(q.beta),
                beta: wneg(alpha),
                qply: q.qply - 1,
                checks,
                ply: wadd(q.ply, 1),
            },
        ).0,
    )
}

/// A position that quiescence has to look into: the game goes on, and the search
/// is not stopped.
pub open spec fn goes_on(b: Board, q: Quiet) -> bool {
    &&& !q.pulse.after_visit().stopped
    &&& final_score(b, q.reps, q.ply, legal_moves(b).len() > 0) is None
}

#[verifier::opaque]
spec fn evaded(ctx: Context, b: Board, q: Quiet, moves: Seq<Move>, i: int, best: i32) -> Visit {
    q_evade(
        ctx,
        b,
        q.reps,
        q.pulse,
        moves,
        i,
        q.alpha,
        q.beta,
        best,
        q.qply,
        q.checks,
        q.ply,
    )
}

#[verifier::opaque]
spec fn captured(
    ctx: Context,
    b: Board,
    q: Quiet,
    moves: Seq<Move>,
    i: int,
    stand: i32,
    best: i32,
) -> Visit {
    q_capture(
        ctx,
        b,
        q.reps,
        q.pulse,
        moves,
        i,
        stand,
        q.alpha,
        q.beta,
        best,
        q.qply,
        q.checks,
        q.ply,
    )
}

proof fn evade_step(ctx: Context, b: Board, q: Quiet, moves: Seq<Move>, i: int, best: i32) -> (p: Pulse)
    requires
        0 <= i < moves.len(),
        q.qply > 0,
    ensures
        ({
            let s = tried(ctx, b, moves[i], q, q.pulse, q.alpha, q.checks);
            let best1 = larger(best, s);
            let alpha1 = larger(q.alpha, best1);
            if alpha1 >= q.beta {
                evaded(ctx, b, q, moves, i, best).0 == best1
            } else {
                evaded(ctx, b, q, moves, i, best) == evaded(
                    ctx,
                    b,
                    Quiet { pulse: p, alpha: alpha1, ..q },
                    moves,
                    i + 1,
                    best1,
                )
            }
        }),
{
    reveal(evaded);
    reveal(quieted);
    q_search(
        ctx,
        after(b, moves[i].parts()),
        q.reps.push(board_hash(b)),
        q.pulse,
        wneg(q.beta),
        wneg(q.alpha),
        q.qply - 1,
        q.checks,
        wadd(q.ply, 1),
    ).1
}

proof fn evasions_covered(
    ctx: Context,
    b: Board,
    q: Quiet,
    moves: Seq<Move>,
    i: int,
    best: i32,
    j: int,
) -> (x: (Pulse, i32))
    requires
        0 <= i <= moves.len(),
        q.qply > 0,
        q.alpha < q.beta,
        best < q.beta,
    ensures
        evaded(ctx, b, q, moves, i, best).0 >= best,
        i <= j < moves.len() && evaded(ctx, b, q, moves, i, best).0 < q.beta ==> {
            &&& tried(ctx, b, moves[j], q, x.0, x.1, q.checks) <= evaded(
                ctx,
                b,
                q,
                moves,
                i,
                best,
            ).0
            &&& q.alpha <= x.1 < q.beta
        },
    decreases moves.len() - i,
{
    if i == moves.len() {
        reveal(evaded);
        (q.pulse, q.alpha)
    } else {
        let p = evade_step(ctx, b, q, moves, i, best);
        let s = tried(ctx, b, moves[i], q, q.pulse, q.alpha, q.checks);
        let best1 = larger(best, s);
        let alpha1 = larger(q.alpha, best1);
        if alpha1 >= q.beta {
            (q.pulse, q.alpha)
        } else {
            let q1 = Quiet { pulse: p, alpha: alpha1, ..q };
            let x = evasions_covered(ctx, b, q1, moves, i + 1, best1, j);
            if j == i {
                (q.pulse, q.alpha)
            } else {
                x
            }
        }
    }
}

/// Out of check every legal move is tried: where the result does not reach beta,
/// each of them scores no more than the result.
pub proof fn every_evasion_is_tried(ctx: Context, b: Board, q: Quiet, m: Move) -> (x: (Pulse, i32))
    requires
        goes_on(b, q),
        in_check(b, b.side),
        q.qply > 0,
        -100_000 < q.beta,
        q.alpha < q.beta,
        legal(b, m),
        quieted(ctx, b, q).0 < q.beta,
    ensures
        tried(ctx, b, m, q, x.0, x.1, q.checks) <= quieted(ctx, b, q).0,
        q.alpha <= x.1 < q.beta,
{
    moves_are_listed(b);
    let moves = legal_moves(b);
    assert(moves.contains(m));
    let j = choose|j: int| 0 <= j < moves.len() && moves[j] == m;
    let q1 = Quiet { pulse: q.pulse.after_visit(), ..q };
    assert(quieted(ctx, b, q) == evaded(ctx, b, q1, moves, 0, -100_000i32 as i32)) by {
        reveal(quieted);
        reveal(evaded);
    }
    let x = evasions_covered(ctx, b, q1, moves, 0, -100_000i32 as i32, j);
    assert(tried(ctx, b, m, q1, x.0, x.1, q1.checks) == tried(ctx, b, m, q, x.0, x.1, q.checks));
    x
}

/// The capture cannot lift the score to alpha: the static score, what the
/// exchange gains, and a hundred more do not reach it.
pub open spec fn hopeless(b: Board, m: Move, stand: int, alpha: int) -> bool {
    let p = m.parts();
    !p.flag.promotes() && p.flag.captures() && stand + exchange_value(b, p) + 100 <= alpha
}

proof fn capture_step(
    ctx: Context,
    b: Board,
    q: Quiet,
    moves: Seq<Move>,
    i: int,
    stand: i32,
    best: i32,
) -> (p: Pulse)
    requires
        0 <= i < moves.len(),
        q.qply > 0,
        -1_000_000_000 <= stand <= 1_000_000_000,
        -900 <= exchange_value(b, moves[i].parts()) <= 900,
    ensures
        ({
            let m = moves[i];
            let r = captured(ctx, b, q, moves, i, stand, best);
            let s = tried(
                ctx,
                b,
                m,
                q,
                q.pulse,
                q.alpha,
                q.checks && m.parts().flag.captures(),
            );
            let best1 = larger(best, s);
            let alpha1 = larger(q.alpha, best1);
            if hopeless(b, m, stand as int, q.alpha as int) {
                r == captured(ctx, b, q, moves, i + 1, stand, best)
            } else if alpha1 >= q.beta {
                r.0 == best1
            } else {
                r == captured(
                    ctx,
                    b,
                    Quiet { pulse: p, alpha: alpha1, ..q },
                    moves,
                    i + 1,
                    stand,
                    best1,
                )
            }
        }),
{
    reveal(captured);
    reveal(quieted);
    let m = moves[i];
    q_search(
        ctx,
        after(b, m.parts()),
        q.reps.push(board_hash(b)),
        q.pulse,
        wneg(q.beta),
        wneg(q.alpha),
        q.qply - 1,
        q.checks && m.parts().flag.captures(),
        wadd(q.ply, 1),
    ).1
}

proof fn captures_covered(
    ctx: Context,
    b: Board,
    q: Quiet,
    moves: Seq<Move>,
    i: int,
    stand: i32,
    best: i32,
    j: int,
) -> (x: (Pulse, i32))
    requires
        0 <= i <= moves.len(),
        q.qply > 0,
        q.alpha < q.beta,
        best < q.beta,
        best <= q.alpha,
        -1_000_000_000 <= stand <= 1_000_000_000,
    ensures
        captured(ctx, b, q, moves, i, stand, best).0 >= best,
        i <= j < moves.len() && captured(ctx, b, q, moves, i, stand, best).0 < q.beta ==> {
            let r = captured(ctx, b, q, moves, i, stand, best).0;
            ||| hopeless(b, moves[j], stand as int, larger(q.alpha, r) as int)
            ||| {
                &&& tried(
                    ctx,
                    b,
                    moves[j],
                    q,
                    x.0,
                    x.1,
                    q.checks && moves[j].parts().flag.captures(),
                ) <= r
                &&& q.alpha <= x.1 < q.beta
            }
        },
    decreases moves.len() - i,
{
    if i == moves.len() {
        reveal(captured);
        (q.pulse, q.alpha)
    } else {
        let m = moves[i];
        exchange_small(b, m);
        let p = capture_step(ctx, b, q, moves, i, stand, best);
        let s = tried(ctx, b, m, q, q.pulse, q.alpha, q.checks && m.parts().flag.captures());
        let best1 = larger(best, s);
        let alpha1 = larger(q.alpha, best1);
        if hopeless(b, m, stand as int, q.alpha as int) {
            captures_covered(ctx, b, q, moves, i + 1, stand, best, j)
        } else if alpha1 >= q.beta {
            (q.pulse, q.alpha)
        } else {
            let q1 = Quiet { pulse: p, alpha: alpha1, ..q };
            let x = captures_covered(ctx, b, q1, moves, i + 1, stand, best1, j);
            if j == i {
                (q.pulse, q.alpha)
            } else {
                x
            }
        }
    }
}

proof fn exchange_small(b: Board, m: Move)
    ensures
        -900 <= exchange_value(b, m.parts()) <= 900,
{
    if m.parts().flag.captures() {
        exchange_bounds(b, m.parts());
    }
}

proof fn is_candidate(b: Board, moves: Seq<Move>, checks: bool, n: int, i: int)
    requires
        0 <= i < n <= moves.len(),
        ({
            let p = moves[i].parts();
            p.flag.captures() || p.flag.promotes() || (checks && checked_by_piece(b, p))
        }),
    ensures
        candidates(b, moves, checks, n).contains(moves[i]),
    decreases n,
{
    let l = candidates(b, moves, checks, n);
    if i == n - 1 {
        assert(l[l.len() - 1] == moves[i]);
    } else {
        is_candidate(b, moves, checks, n - 1, i);
        let r = candidates(b, moves, checks, n - 1);
        let k = choose|k: int| 0 <= k < r.len() && r[k] == moves[i];
        assert(l[k] == moves[i]);
    }
}

proof fn listed_by_gain(b: Board, l: Seq<Move>, m: Move)
    requires
        l.contains(m),
    ensures
        by_gain(b, l).contains(m),
{
    broadcast use vstd::seq_lib::group_to_multiset_ensures;

    by_gain_sorts(b, l);
    assert(l.to_multiset().count(m) > 0);
    assert(by_gain(b, l).to_multiset().count(m) > 0);
}

/// Without a check the static score stands: the result is never below it, and it
/// is the static score where that reaches beta already, or no plies are left.
pub proof fn static_score_stands(ctx: Context, b: Board, q: Quiet)
    requires
        goes_on(b, q),
        !in_check(b, b.side),
        -1_000_000_000 <= static_score(ctx, b) <= 1_000_000_000,
        q.alpha < q.beta,
    ensures
        quieted(ctx, b, q).0 >= static_score(ctx, b),
        static_score(ctx, b) >= q.beta || q.qply <= 0 ==> quieted(ctx, b, q).0 == static_score(
            ctx,
            b,
        ),
{
    let stand = static_score(ctx, b) as i32;
    let moves = legal_moves(b);
    let now = q.checks && q.qply > 4;
    let l = by_gain(b, candidates(b, moves, now, moves.len() as int));
    let q1 = Quiet {
        pulse: q.pulse.after_visit(),
        alpha: larger(q.alpha, stand),
        checks: now,
        ..q
    };
    assert(stand >= q.beta || q.qply <= 0 ==> quieted(ctx, b, q).0 == stand) by {
        reveal(quieted);
    }
    if stand < q.beta && q.qply > 0 {
        assert(quieted(ctx, b, q) == captured(ctx, b, q1, l, 0, stand, stand)) by {
            reveal(quieted);
            reveal(captured);
        }
        let _ = captures_covered(ctx, b, q1, l, 0, stand, stand, 0);
    }
}

/// Without a check every capture and promotion is tried, and in the first two of
/// the six plies every move that gives check: where the result does not reach
/// beta, each of them scores no more than the result, or is a capture that cannot
/// lift it.
pub proof fn every_capture_is_tried(ctx: Context, b: Board, q: Quiet, m: Move) -> (x: (Pulse, i32))
    requires
        goes_on(b, q),
        !in_check(b, b.side),
        q.qply > 0,
        q.alpha < q.beta,
        -1_000_000_000 <= static_score(ctx, b) <= 1_000_000_000,
        legal(b, m),
        ({
            let p = m.parts();
            p.flag.captures() || p.flag.promotes() || (q.checks && q.qply >= 5
                && checked_by_piece(b, p))
        }),
        quieted(ctx, b, q).0 < q.beta,
    ensures
        ({
            let r = quieted(ctx, b, q).0;
            let alpha = if q.alpha > r {
                q.alpha
            } else {
                r
            };
            ||| hopeless(b, m, static_score(ctx, b), alpha as int)
            ||| {
                &&& tried(
                    ctx,
                    b,
                    m,
                    q,
                    x.0,
                    x.1,
                    q.checks && q.qply >= 5 && m.parts().flag.captures(),
                ) <= r
                &&& q.alpha <= x.1 < q.beta
            }
        }),
{
    let stand = static_score(ctx, b) as i32;
    let moves = legal_moves(b);
    let now = q.checks && q.qply > 4;
    static_score_stands(ctx, b, q);
    moves_are_listed(b);
    assert(moves.contains(m));
    let i = choose|i: int| 0 <= i < moves.len() && moves[i] == m;
    is_candidate(b, moves, now, moves.len() as int, i);
    let picked = candidates(b, moves, now, moves.len() as int);
    listed_by_gain(b, picked, m);
    let l = by_gain(b, picked);
    let j = choose|j: int| 0 <= j < l.len() && l[j] == m;
    let q1 = Quiet {
        pulse: q.pulse.after_visit(),
        alpha: larger(q.alpha, stand),
        checks: now,
        ..q
    };
    assert(quieted(ctx, b, q) == captured(ctx, b, q1, l, 0, stand, stand)) by {
        reveal(quieted);
        reveal(captured);
    }
    let x = captures_covered(ctx, b, q1, l, 0, stand, stand, j);
    let cs = now && m.parts().flag.captures();
    assert(tried(ctx, b, m, q1, x.0, x.1, cs) == tried(ctx, b, m, q, x.0, x.1, cs));
    x
}

} // verus!
