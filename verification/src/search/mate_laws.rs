//! Mates are found: what a search says where the game is decided by force.
use vstd::prelude::*;
use crate::checks::check_after_legal;
use crate::context::Context;
use crate::legality::legal_keeps_playable;
use crate::listing::{legal_moves, moves_are_listed};
use crate::moves::Move;
use crate::rules::{Board, after, in_check, legal, playable};
use crate::search::alphabeta::Node;
use crate::search::depth_laws::{
    every_move_is_searched, looked, only_move_is_followed, open_node, result_of,
};
use crate::search::helpers::insufficient_material;
use crate::search::thread_state::{SearchModel, is_repetition};
use crate::search::tt::TableModel;
use crate::zobrist::board_hash;

verus! {

/// The side to move is mated.
pub open spec fn is_mated(b: Board) -> bool {
    in_check(b, b.side) && forall|m: Move| !legal(b, m)
}

/// The side to move has no legal move, and is not in check.
pub open spec fn is_stalemated(b: Board) -> bool {
    !in_check(b, b.side) && forall|m: Move| !legal(b, m)
}

proof fn no_moves(b: Board)
    requires
        forall|m: Move| !legal(b, m),
    ensures
        legal_moves(b).len() == 0,
{
    moves_are_listed(b);
    let l = legal_moves(b);
    if l.len() > 0 {
        assert(l.contains(l[0]));
    }
}

/// However deep it is asked to look and whatever it has learnt, a search that is
/// not stopped scores a mate by its distance from the root, and a stalemate as a
/// draw.
pub proof fn end_of_game_is_seen(ctx: Context, b: Board, st: SearchModel, n: Node)
    requires
        0 <= n.ply <= 1000,
        !result_of(ctx, b, st, n).1.pulse.stopped,
    ensures
        is_mated(b) ==> result_of(ctx, b, st, n).0 == n.ply - 100_000,
        is_stalemated(b) ==> result_of(ctx, b, st, n).0 == 0,
{
    reveal(result_of);
    if is_mated(b) || is_stalemated(b) {
        no_moves(b);
    }
}

/// A mate in one is found: where some legal move mates, a search of at least one
/// ply scores no less than the mate, or reaches beta.
pub proof fn mate_in_one_is_found(ctx: Context, b: Board, st: SearchModel, n: Node, m: Move)
    requires
        open_node(b, st, n),
        legal(b, m),
        is_mated(after(b, m.parts())),
        !result_of(ctx, b, st, n).1.pulse.stopped,
    ensures
        result_of(ctx, b, st, n).0 >= n.beta || result_of(ctx, b, st, n).0 >= 100_000 - (n.ply + 1),
{
    if result_of(ctx, b, st, n).0 < n.beta {
        let (k, index, alpha) = every_move_is_searched(ctx, b, st, n, m);
        let c = after(b, m.parts());
        let child = SearchModel { reps: k.st.reps.push(board_hash(c)), ..k.st };
        let node = Node {
            depth: k.depth,
            alpha: k.alpha,
            beta: k.beta,
            ply: (n.ply + 1) as i32,
            prev: m,
            excluded: Move::null(),
            ext: k.ext,
        };
        assert(looked(ctx, b, m, n.ply as int, k) == result_of(ctx, c, child, node));
        end_of_game_is_seen(ctx, c, child, node);
    }
}

/// Play is forced for `n` plies and ends in mate: there is one legal move each
/// time, and no draw on the way.
pub open spec fn forced_to_mate(b: Board, reps: Seq<u64>, n: nat) -> bool
    decreases n,
{
    if n == 0 {
        is_mated(b)
    } else {
        let c = after(b, legal_moves(b)[0].parts());
        &&& legal_moves(b).len() == 1
        &&& !insufficient_material(b)
        &&& b.halfmove < 100
        &&& !is_repetition(reps, board_hash(b), b.halfmove)
        &&& forced_to_mate(c, reps.push(board_hash(c)), (n - 1) as nat)
    }
}

/// In forced play of `n` plies, the side that mates gives check with each move.
pub open spec fn with_checks(b: Board, n: nat) -> bool
    decreases n,
{
    n == 0 || {
        let c = after(b, legal_moves(b)[0].parts());
        (n % 2 == 1 ==> in_check(c, c.side)) && with_checks(c, (n - 1) as nat)
    }
}

/// The table knows nothing.
pub open spec fn table_is_empty(t: TableModel) -> bool {
    forall|key: u64| #[trigger] t.probe(key) is None
}

/// The score of a mate `n` plies from here, seen `ply` plies from the root: for
/// the side that mates if it has the last move, else for the side that is mated.
pub open spec fn mate_ahead(ply: int, n: int) -> int {
    if n % 2 == 1 {
        100_000 - (ply + n)
    } else {
        (ply + n) - 100_000
    }
}

/// The search is deep enough for forced play of `n` plies: twice as many plies,
/// for at worst a move costs two; or, with checks all the way and extensions left
/// for them, as many plies as there are.
pub open spec fn deep_enough(b: Board, n: nat, node: Node) -> bool {
    ||| node.depth >= 2 * n
    ||| {
        &&& node.depth >= n
        &&& node.ext + n <= 8
        &&& playable(b)
        &&& with_checks(b, n)
        &&& n % 2 == 0 ==> in_check(b, b.side)
    }
}

/// A forced mate is found: where play is forced to a mate in `n` plies, a search
/// that is deep enough, with an open window and an empty table, gives exactly the
/// score of that mate.
pub proof fn forced_mate_is_found(ctx: Context, b: Board, st: SearchModel, node: Node, n: nat)
    requires
        forced_to_mate(b, st.reps, n),
        deep_enough(b, n, node),
        node.depth < i32::MAX,
        node.alpha == -100_000,
        node.beta == 100_000,
        0 <= node.ply,
        node.ply + n < 127,
        node.excluded == Move::null(),
        0 <= node.ext,
        node.ext + n < 100,
        table_is_empty(st.table),
        !result_of(ctx, b, st, node).1.pulse.stopped,
    ensures
        result_of(ctx, b, st, node).0 == mate_ahead(node.ply as int, n as int),
    decreases n,
{
    if n == 0 {
        end_of_game_is_seen(ctx, b, st, node);
    } else {
        let m = legal_moves(b)[0];
        let c = after(b, m.parts());
        moves_are_listed(b);
        assert(legal_moves(b).contains(m));
        assert(open_node(b, st, node)) by {
            assert(st.table.probe(board_hash(b)) is None);
        }
        let k = only_move_is_followed(ctx, b, st, node);
        let child = SearchModel { reps: k.st.reps.push(board_hash(c)), ..k.st };
        let next = Node {
            depth: k.depth,
            alpha: k.alpha,
            beta: k.beta,
            ply: (node.ply + 1) as i32,
            prev: m,
            excluded: Move::null(),
            ext: k.ext,
        };
        assert(looked(ctx, b, m, node.ply as int, k) == result_of(ctx, c, child, next));
        let fewer = (n - 1) as nat;
        if node.depth < 2 * n {
            legal_keeps_playable(b, m.parts());
            check_after_legal(b, m.parts());
            assert(c.side == b.side.other());
        }
        assert(deep_enough(c, fewer, next));
        forced_mate_is_found(ctx, c, child, next, fewer);
    }
}

} // verus!
