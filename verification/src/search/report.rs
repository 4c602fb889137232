//! What a search has to say: the line of play it expects, and the info lines
//! of the UCI protocol.
use vstd::prelude::*;
use crate::arith::{div_toward_zero, quotient};
use crate::double::{per_second, rate};
use crate::eval::{MATE_SCORE, evaluable};
use crate::listing::legal_moves;
use crate::movegen::generate_legal_moves;
use crate::moves::{Move, MoveList, uci_text};
use crate::position::Position;
use crate::rules::{Board, after, legal, playable};
use crate::search::quiescence::{may_play, ready, search_step};
use crate::search::timing::Spent;
use crate::search::tt::{Bound, SharedSearch, TableModel};
use crate::text::{digits_of, number_text, push_i64, push_text, push_u64};
use crate::zobrist::board_hash;

verus! {

/// The expected line from a board on: the best moves that the table holds as
/// exact, as long as they are legal, no position comes back, and the line is
/// not full.
pub open spec fn expected_line(
    b: Board,
    table: TableModel,
    seen: Seq<u64>,
    line: Seq<Move>,
    max_len: int,
) -> Seq<Move>
    decreases max_len - line.len(),
{
    if line.len() >= max_len {
        line
    } else {
        match table.probe(board_hash(b)) {
            None => line,
            Some(e) => {
                let c = after(b, e.best_move.parts());
                if e.best_move == Move::null() || e.bound != Bound::Exact || !legal_moves(b).contains(
                    e.best_move,
                ) || seen.contains(board_hash(c)) {
                    line
                } else {
                    expected_line(
                        c,
                        table,
                        seen.push(board_hash(c)),
                        line.push(e.best_move),
                        max_len,
                    )
                }
            },
        }
    }
}

/// The principal variation that begins with a move.
pub open spec fn principal_variation(b: Board, table: TableModel, first: Move, max_len: int) -> Seq<
    Move,
> {
    if first == Move::null() {
        seq![]
    } else {
        let c = after(b, first.parts());
        expected_line(c, table, seq![board_hash(c)], seq![first], max_len)
    }
}

fn list_contains(list: &MoveList, m: Move) -> (r: bool)
    ensures
        r == list@.contains(m),
{
    let mut i: usize = 0;
    while i < list.count()
        invariant
            i <= list@.len(),
            forall|j: int| 0 <= j < i ==> list@[j] != m,
        decreases list@.len() - i,
    {
        if list.moves[i] == m {
            proof {
                assert(list@[i as int] == m);
            }
            return true;
        }
        i += 1;
    }
    false
}

fn seen_before(seen: &Vec<u64>, key: u64) -> (r: bool)
    ensures
        r == seen@.contains(key),
{
    let mut i: usize = 0;
    while i < seen.len()
        invariant
            i <= seen@.len(),
            forall|j: int| 0 <= j < i ==> seen@[j] != key,
        decreases seen@.len() - i,
    {
        if seen[i] == key {
            return true;
        }
        i += 1;
    }
    false
}

/// The moves of a line are well formed.
pub open spec fn line_wf(l: Seq<Move>) -> bool {
    forall|i: int| 0 <= i < l.len() ==> (#[trigger] l[i]).wf()
}

/// The principal variation, as the table has it.
pub fn extract_pv(
    pos: &Position,
    shared: &SharedSearch,
    first_move: Move,
    max_len: usize,
) -> (r: Vec<Move>)
    requires
        ready(pos),
        shared.tt.wf(),
        first_move == Move::null() || may_play(pos@, first_move),
    ensures
        r@ == principal_variation(pos@, shared.tt@, first_move, max_len as int),
        line_wf(r@),
{
    let mut pv: Vec<Move> = Vec::new();
    if first_move.is_null() {
        proof {
            assert(pv@ =~= seq![]);
        }
        return pv;
    }
    let mut walk = pos.duplicate();
    proof {
        reveal(ready);
        reveal(may_play);
        search_step(*pos.ctx, pos@, first_move);
    }
    walk.make_move(first_move);
    pv.push(first_move);
    let mut seen: Vec<u64> = Vec::new();
    seen.push(walk.zobrist_key);
    let ghost goal = principal_variation(pos@, shared.tt@, first_move, max_len as int);
    proof {
        assert(pv@ =~= seq![first_move]);
        assert(seen@ =~= seq![board_hash(walk@)]);
    }
    let mut going = true;
    while going && pv.len() < max_len
        invariant
            walk.wf(),
            playable(walk@),
            evaluable(*walk.ctx, walk@),
            shared.tt.wf(),
            line_wf(pv@),
            going ==> goal == expected_line(walk@, shared.tt@, seen@, pv@, max_len as int),
            !going ==> goal == pv@,
        decreases
                if going && pv@.len() < max_len {
                    max_len - pv@.len()
                } else {
                    0
                },
    {
        match shared.probe(walk.zobrist_key) {
            None => {
                going = false;
            },
            Some(entry) => {
                let m = entry.best_move;
                if m.is_null() || entry.bound != Bound::Exact {
                    going = false;
                } else {
                    let mut list = MoveList::new();
                    generate_legal_moves(&walk, &mut list);
                    proof {
                        assert(list@ =~= legal_moves(walk@));
                    }
                    if !list_contains(&list, m) {
                        going = false;
                    } else {
                        proof {
                            assert(legal(walk@, m));
                            search_step(*walk.ctx, walk@, m);
                        }
                        walk.make_move(m);
                        if seen_before(&seen, walk.zobrist_key) {
                            going = false;
                        } else {
                            seen.push(walk.zobrist_key);
                            pv.push(m);
                        }
                    }
                }
            },
        }
    }
    pv
}

/// The moves of a line in UCI notation, separated by spaces.
pub open spec fn line_text(l: Seq<Move>) -> Seq<char>
    decreases l.len(),
{
    if l.len() == 0 {
        seq![]
    } else if l.len() == 1 {
        uci_text(l[0].parts())
    } else {
        line_text(l.drop_last()).push(' ') + uci_text(l.last().parts())
    }
}

/// Appends the moves of a line.
fn push_line(s: &mut String, l: &Vec<Move>)
    requires
        line_wf(l@),
    ensures
        final(s)@ == old(s)@ + line_text(l@),
{
    let mut i: usize = 0;
    proof {
        assert(l@.take(0) =~= seq![]);
        assert(s@ =~= old(s)@ + line_text(l@.take(0)));
    }
    while i < l.len()
        invariant
            i <= l@.len(),
            line_wf(l@),
            s@ == old(s)@ + line_text(l@.take(i as int)),
        decreases l@.len() - i,
    {
        let m = l[i];
        assert(l@[i as int].wf());
        proof {
            assert(l@.take(i + 1).drop_last() =~= l@.take(i as int));
            assert(l@.take(i + 1).last() == m);
        }
        if i > 0 {
            s.push(' ');
        }
        let text = m.to_uci();
        push_text(s, text.as_str());
        proof {
            assert(s@ =~= old(s)@ + line_text(l@.take(i + 1)));
        }
        i += 1;
    }
    proof {
        assert(l@.take(i as int) =~= l@);
    }
}

/// How a depth came out, for the user.
pub struct DepthInfo {
    pub depth: i32,
    pub score: i32,
    pub nodes: u64,
    pub elapsed_ms: u64,
    pub pv: Vec<Move>,
    pub spent: Spent,
}

pub open spec fn magnitude(x: int) -> int {
    if x < 0 {
        -x
    } else {
        x
    }
}

/// Moves to mate, negative for being mated.
pub open spec fn mate_distance(score: i32) -> int {
    let n = quotient(100_001 - magnitude(score as int), 2);
    if score < 0 {
        -n
    } else {
        n
    }
}

/// The score part of an info line: a mate in moves, else centipawns; the worst
/// score of all stands for none.
pub open spec fn score_text(score: i32) -> Seq<char> {
    if score == -100_000 {
        "cp -32768"@
    } else if magnitude(score as int) >= 99_000 {
        "mate "@ + number_text(mate_distance(score))
    } else {
        "cp "@ + number_text(score as int)
    }
}

/// An info line.
pub open spec fn info_text(
    depth: i32,
    score: i32,
    nodes: u64,
    elapsed_ms: u64,
    pv: Seq<Move>,
    spent: Spent,
) -> Seq<char> {
    "info depth "@ + number_text(depth as int) + " score "@ + score_text(score) + " nodes "@
        + digits_of(nodes as int) + " nps "@ + digits_of(per_second(nodes, elapsed_ms))
        + " time "@ + digits_of(elapsed_ms as int) + " pv "@ + (if score == -100_000 {
        "(none)"@
    } else {
        line_text(pv)
    }) + spent_text(spent)
}

/// The end of an info line: the nanoseconds that parts of the search have taken.
pub open spec fn spent_text(s: Spent) -> Seq<char> {
    " bookns "@ + digits_of(s.bookns as int) + " ttns "@ + digits_of(s.ttns as int) + " singns "@
        + digits_of(s.singns as int) + " evalns "@ + digits_of(s.evalns as int) + " probcutns "@
        + digits_of(s.probcutns as int)
}

fn push_spent(s: &mut String, spent: &Spent)
    ensures
        final(s)@ == old(s)@ + spent_text(*spent),
{
    push_text(s, " bookns ");
    push_u64(s, spent.bookns);
    push_text(s, " ttns ");
    push_u64(s, spent.ttns);
    push_text(s, " singns ");
    push_u64(s, spent.singns);
    push_text(s, " evalns ");
    push_u64(s, spent.evalns);
    push_text(s, " probcutns ");
    push_u64(s, spent.probcutns);
    proof {
        assert(s@ =~= old(s)@ + spent_text(*spent));
    }
}

fn push_score(s: &mut String, score: i32)
    ensures
        final(s)@ == old(s)@ + score_text(score),
{
    let size: i64 = if score < 0 {
        -(score as i64)
    } else {
        score as i64
    };
    if score == -MATE_SCORE {
        push_text(s, "cp -32768");
    } else if size >= 99_000 {
        push_text(s, "mate ");
        let n: i64 = div_toward_zero(100_001 - size, 2);
        let signed: i64 = if score < 0 {
            -n
        } else {
            n
        };
        push_i64(s, signed);
        proof {
            assert(s@ =~= old(s)@ + score_text(score));
        }
    } else {
        push_text(s, "cp ");
        push_i64(s, score as i64);
        proof {
            assert(s@ =~= old(s)@ + score_text(score));
        }
    }
}

impl DepthInfo {
    /// The info line of the UCI protocol.
    pub fn text(&self) -> (r: String)
        requires
            line_wf(self.pv@),
            self.elapsed_ms > 0,
        ensures
            r@ == info_text(
                self.depth,
                self.score,
                self.nodes,
                self.elapsed_ms,
                self.pv@,
                self.spent,
            ),
    {
        let mut s = String::new();
        push_text(&mut s, "info depth ");
        push_i64(&mut s, self.depth as i64);
        push_text(&mut s, " score ");
        push_score(&mut s, self.score);
        push_text(&mut s, " nodes ");
        push_u64(&mut s, self.nodes);
        push_text(&mut s, " nps ");
        push_u64(&mut s, rate(self.nodes, self.elapsed_ms));
        push_text(&mut s, " time ");
        push_u64(&mut s, self.elapsed_ms);
        push_text(&mut s, " pv ");
        if self.score == -MATE_SCORE {
            push_text(&mut s, "(none)");
        } else {
            push_line(&mut s, &self.pv);
        }
        push_spent(&mut s, &self.spent);
        proof {
            assert(s@ =~= info_text(
                self.depth,
                self.score,
                self.nodes,
                self.elapsed_ms,
                self.pv@,
                self.spent,
            ));
        }
        s
    }
}

} // verus!
