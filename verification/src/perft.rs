//! Counting the leaves of the game tree.
use vstd::prelude::*;
use crate::legality::legal_keeps_playable;
use crate::listing::{legal_moves, lists_all};
use crate::movegen::generate_legal_moves;
use crate::moves::{Move, MoveList};
use crate::position::{Position, made_is_restorable, undo_of};
use crate::rules::{Board, after, playable};
use vstd::arithmetic::div_mod::lemma_add_mod_noop;

verus! {

/// The number of games of `depth` moves from a board.
pub open spec fn perft_count(b: Board, depth: nat) -> nat
    decreases depth, 1nat, 0nat,
{
    if depth == 0 {
        1
    } else {
        perft_sum(b, legal_moves(b), depth)
    }
}

/// The number of games that begin with one of the given moves.
pub open spec fn perft_sum(b: Board, moves: Seq<Move>, depth: nat) -> nat
    decreases depth, 0nat, moves.len(),
{
    if moves.len() == 0 || depth == 0 {
        0
    } else {
        perft_sum(b, moves.drop_last(), depth) + perft_count(
            after(b, moves.last().parts()),
            (depth - 1) as nat,
        )
    }
}

proof fn perft_sum_one(b: Board, moves: Seq<Move>)
    ensures
        perft_sum(b, moves, 1) == moves.len(),
    decreases moves.len(),
{
    if moves.len() > 0 {
        perft_sum_one(b, moves.drop_last());
        assert(perft_count(after(b, moves.last().parts()), 0) == 1);
    }
}

/// Counts the games of `depth` moves, modulo 2^64. The position is left as it
/// was.
pub fn perft(pos: &mut Position, depth: u32) -> (r: u64)
    requires
        old(pos).wf(),
        playable(old(pos)@),
    ensures
        final(pos).wf(),
        final(pos)@ == old(pos)@,
        final(pos).ctx == old(pos).ctx,
        final(pos).undo_stack@ == old(pos).undo_stack@,
        r as nat == perft_count(old(pos)@, depth as nat) % 0x1_0000_0000_0000_0000,
    decreases depth,
{
    if depth == 0 {
        return 1;
    }
    let ghost b = pos@;
    let mut list = MoveList::new();
    generate_legal_moves(pos, &mut list);
    let ghost moves = legal_moves(b);
    proof {
        assert(list@ =~= moves);
    }
    if depth == 1 {
        proof {
            perft_sum_one(b, moves);
        }
        return list.count() as u64;
    }
    let mut nodes: u64 = 0;
    let mut i: usize = 0;
    while i < list.count()
        invariant
            i <= list@.len(),
            depth > 1,
            list@ == moves,
            moves == legal_moves(b),
            lists_all(b, moves),
            playable(b),
            pos.wf(),
            pos@ == b,
            b == old(pos)@,
            pos.ctx == old(pos).ctx,
            pos.undo_stack@ == old(pos).undo_stack@,
            nodes as nat == perft_sum(b, moves.take(i as int), depth as nat)
                % 0x1_0000_0000_0000_0000,
        decreases list@.len() - i,
    {
        let m = list.moves[i];
        proof {
            assert(moves.contains(m));
            legal_keeps_playable(b, m.parts());
            made_is_restorable(b, m.parts());
        }
        let ghost stack = pos.undo_stack@;
        pos.make_move(m);
        let count = perft(pos, depth - 1);
        proof {
            assert(stack.push(undo_of(b, m.parts())).drop_last() =~= stack);
            assert(moves.take(i + 1).drop_last() =~= moves.take(i as int));
            let x = perft_sum(b, moves.take(i as int), depth as nat) as int;
            let y = perft_count(after(b, m.parts()), (depth - 1) as nat) as int;
            lemma_add_mod_noop(x, y, 0x1_0000_0000_0000_0000);
        }
        nodes = nodes.wrapping_add(count);
        pos.unmake_move(m);
        i += 1;
    }
    proof {
        assert(moves.take(i as int) =~= moves);
    }
    nodes
}

} // verus!
