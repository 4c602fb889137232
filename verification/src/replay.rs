//! What is written of a game can be played again: the texts of moves tell them
//! apart, and a line of moves leads to the position that it came from.
use vstd::prelude::*;
use crate::geometry::{file, rank};
use crate::legality::legal_keeps_playable;
use crate::listing::{key_injective, legal_moves, move_key, moves_are_listed};
use crate::moves::{Move, MoveParts, digit_of, letter_of, square_name, uci_text};
use crate::position::undo_of;
use crate::rules::{Board, after, legal, playable};
use crate::uci::{Game, move_written, played};

verus! {

/// A square is known by its name.
proof fn name_tells_square(s: int, t: int)
    requires
        0 <= s < 64,
        0 <= t < 64,
        letter_of(file(s)) == letter_of(file(t)),
        digit_of(rank(s)) == digit_of(rank(t)),
    ensures
        s == t,
{
    let (a, c) = (letter_of(file(s)), letter_of(file(t)));
    assert(a as int == 97 + file(s));
    assert(c as int == 97 + file(t));
    let (d, e) = (digit_of(rank(s)), digit_of(rank(t)));
    assert(d as int == 49 + rank(s));
    assert(e as int == 49 + rank(t));
}

/// The text of a move, letter by letter.
proof fn text_letters(p: MoveParts)
    ensures
        ({
            let t = uci_text(p);
            &&& t.len() == if p.flag.promotes() {
                5int
            } else {
                4
            }
            &&& t[0] == letter_of(file(p.from))
            &&& t[1] == digit_of(rank(p.from))
            &&& t[2] == letter_of(file(p.to))
            &&& t[3] == digit_of(rank(p.to))
        }),
{
    let s = square_name(p.from) + square_name(p.to);
    assert(s.len() == 4);
    assert(s[0] == letter_of(file(p.from)));
    assert(s[1] == digit_of(rank(p.from)));
    assert(s[2] == letter_of(file(p.to)));
    assert(s[3] == digit_of(rank(p.to)));
}

/// Two legal moves that are written alike are the same move.
pub proof fn written_alike_is_same(b: Board, m: Move, n: Move)
    requires
        legal(b, m),
        legal(b, n),
        uci_text(m.parts()) == uci_text(n.parts()),
    ensures
        m == n,
{
    let (p, q) = (m.parts(), n.parts());
    text_letters(p);
    text_letters(q);
    name_tells_square(p.from, q.from);
    name_tells_square(p.to, q.to);
    assert(p.piece == q.piece);
    assert(p.flag.promotes() == q.flag.promotes());
    if p.flag.promotes() {
        assert(uci_text(p)[4] == uci_text(q)[4]);
        assert(p.flag.promotes_to() == q.flag.promotes_to());
    }
    assert(move_key(p) == move_key(q));
    key_injective(b, p, q);
}

proof fn found_below(moves: Seq<Move>, text: Seq<char>, i: int, n: int)
    requires
        0 <= i < n <= moves.len(),
        uci_text(moves[i].parts()) == text,
    ensures
        move_written(moves, text, n) is Some,
        moves.contains(move_written(moves, text, n)->0),
        uci_text((move_written(moves, text, n)->0).parts()) == text,
    decreases n,
{
    if i < n - 1 {
        found_below(moves, text, i, n - 1);
    } else {
        found_or_not(moves, text, n - 1);
        assert(moves.contains(moves[n - 1]));
    }
}

proof fn found_or_not(moves: Seq<Move>, text: Seq<char>, n: int)
    requires
        0 <= n <= moves.len(),
    ensures
        move_written(moves, text, n) matches Some(m) ==> moves.contains(m) && uci_text(m.parts())
            == text,
    decreases n,
{
    if n > 0 {
        found_or_not(moves, text, n - 1);
        assert(moves.contains(moves[n - 1]));
    }
}

/// A legal move is found by its text.
pub proof fn legal_move_is_found(b: Board, m: Move)
    requires
        legal(b, m),
    ensures
        move_written(legal_moves(b), uci_text(m.parts()), legal_moves(b).len() as int) == Some(m),
{
    moves_are_listed(b);
    let l = legal_moves(b);
    let text = uci_text(m.parts());
    assert(l.contains(m));
    let i = choose|i: int| 0 <= i < l.len() && l[i] == m;
    found_below(l, text, i, l.len() as int);
    let n = move_written(l, text, l.len() as int)->0;
    assert(l.contains(n));
    written_alike_is_same(b, m, n);
}

/// Each move of a line is legal when its turn comes.
pub open spec fn legal_line(b: Board, line: Seq<Move>) -> bool
    decreases line.len(),
{
    line.len() == 0 || (legal(b, line[0]) && legal_line(after(b, line[0].parts()), line.skip(1)))
}

/// The game after a line of moves.
pub open spec fn after_line(g: Game, line: Seq<Move>) -> Game
    decreases line.len(),
{
    if line.len() == 0 {
        g
    } else {
        let p = line[0].parts();
        after_line(
            Game { b: after(g.b, p), history: g.history.push(undo_of(g.b, p)) },
            line.skip(1),
        )
    }
}

/// The texts of a line of moves.
pub open spec fn line_texts(line: Seq<Move>) -> Seq<Seq<char>> {
    line.map_values(|m: Move| uci_text(m.parts()))
}

proof fn replay_from(g: Game, words: Seq<Seq<char>>, i: int, line: Seq<Move>)
    requires
        0 <= i,
        i + line.len() == words.len(),
        forall|j: int| 0 <= j < line.len() ==> words[i + j] == uci_text((#[trigger] line[j]).parts()),
        playable(g.b),
        legal_line(g.b, line),
    ensures
        played(g, words, i) == after_line(g, line),
    decreases line.len(),
{
    if line.len() > 0 {
        let m = line[0];
        let p = m.parts();
        assert(words[i + 0] == uci_text(p));
        legal_move_is_found(g.b, m);
        legal_keeps_playable(g.b, p);
        let next = Game { b: after(g.b, p), history: g.history.push(undo_of(g.b, p)) };
        let rest = line.skip(1);
        assert forall|j: int| 0 <= j < rest.len() implies words[i + 1 + j] == uci_text(
            (#[trigger] rest[j]).parts(),
        ) by {
            assert(rest[j] == line[j + 1]);
            assert(words[i + (j + 1)] == uci_text(line[j + 1].parts()));
        }
        replay_from(next, words, i + 1, rest);
    }
}

/// A line of legal moves, written out and read again, is played to its end and
/// leads to the same game.
pub proof fn written_line_is_replayed(g: Game, line: Seq<Move>)
    requires
        playable(g.b),
        legal_line(g.b, line),
    ensures
        played(g, line_texts(line), 0) == after_line(g, line),
{
    replay_from(g, line_texts(line), 0, line);
}

/// A line of legal moves from a board that can be played leads to one that can.
pub proof fn line_keeps_playable(g: Game, line: Seq<Move>)
    requires
        playable(g.b),
        legal_line(g.b, line),
    ensures
        playable(after_line(g, line).b),
    decreases line.len(),
{
    if line.len() > 0 {
        let p = line[0].parts();
        legal_keeps_playable(g.b, p);
        line_keeps_playable(
            Game { b: after(g.b, p), history: g.history.push(undo_of(g.b, p)) },
            line.skip(1),
        );
    }
}

} // verus!
