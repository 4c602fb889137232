//! The usual form of a position text, which reading and writing leaves as it
//! is.
use vstd::prelude::*;
use crate::fen::{
    book_text, ep_text, fen_board, fen_pieces, fen_problem, full_rank_text, gap_text, letter_piece,
    piece_letter, placement_text, rank_text, rights_text, side_letter,
};
use crate::moves::digit_of;
use crate::notation::{
    board_placements, board_read_back, ep_read_back, fields_nonempty, placement_fields, rank_texts,
    ranks_read_back, rights_read_back,
};
use crate::pieces::{Color, PieceType};
use crate::rules::{Squares, at};
use crate::text::{fields, words};
use crate::zobrist::real_pieces;

verus! {

/// The digits that stand for empty squares.
pub open spec fn is_gap(c: char) -> bool {
    '1' <= c <= '8'
}

pub open spec fn gap_length(c: char) -> nat {
    if is_gap(c) {
        (c as int - 48) as nat
    } else {
        0
    }
}

/// The squares that the text of a rank stands for.
pub open spec fn cells(s: Seq<char>) -> Seq<Option<(Color, PieceType)>>
    decreases s.len(),
{
    if s.len() == 0 {
        seq![]
    } else if is_gap(s.last()) {
        cells(s.drop_last()) + Seq::new(gap_length(s.last()), |i: int| None)
    } else {
        cells(s.drop_last()).push(letter_piece(s.last()))
    }
}

/// The usual text of a rank: letters of pieces and numbers of empty squares, no
/// number directly behind another, eight squares in all.
pub open spec fn usual_rank(s: Seq<char>) -> bool {
    &&& forall|i: int| 0 <= i < s.len() ==> is_gap(#[trigger] s[i]) || letter_piece(s[i]) is Some
    &&& forall|i: int| 0 < i < s.len() ==> !(is_gap(s[i - 1]) && is_gap(#[trigger] s[i]))
    &&& cells(s).len() == 8
}

/// The usual form of the first four fields: eight ranks, the side to move, the
/// castling rights in their order, and the name of a square or a dash.
pub open spec fn usual_fields(parts: Seq<Seq<char>>) -> bool {
    &&& parts.len() >= 4
    &&& fields(parts[0], '/').len() == 8
    &&& forall|i: int| 0 <= i < 8 ==> usual_rank(#[trigger] fields(parts[0], '/')[i])
    &&& parts[1] == seq!['w'] || parts[1] == seq!['b']
    &&& exists|rights: u8| rights < 16 && parts[2] == #[trigger] rights_text(rights)
    &&& exists|ep: Option<u8>|
        (ep matches Some(e) ==> e < 64) && parts[3] == #[trigger] ep_text(ep)
}

/// The first four fields with a space between each two.
pub open spec fn four_fields(parts: Seq<Seq<char>>) -> Seq<char> {
    parts[0].push(' ') + parts[1].push(' ') + parts[2].push(' ') + parts[3]
}

/// The squares that the texts of eight ranks stand for.
spec fn squares_of(ranks: Seq<Seq<char>>) -> Squares {
    Seq::new(64, |s: int| cells(ranks[7 - s / 8])[s % 8])
}

proof fn empty_run(squares: Squares, rank: int, text: Seq<char>, n: int, k: int)
    requires
        0 <= n,
        0 <= k,
        rank_text(squares, rank, n) == (text, 0int),
        forall|f: int| n <= f < n + k ==> (#[trigger] squares[at(rank, f)]) is None,
    ensures
        rank_text(squares, rank, n + k) == (text, k),
    decreases k,
{
    if k > 0 {
        empty_run(squares, rank, text, n, k - 1);
        assert(squares[at(rank, n + k - 1)] is None);
    }
}

proof fn cells_of_prefix(s: Seq<char>, k: int, f: int)
    requires
        0 <= k <= s.len(),
    ensures
        cells(s.take(k)).len() <= cells(s).len(),
        0 <= f < cells(s.take(k)).len() ==> cells(s)[f] == cells(s.take(k))[f],
    decreases s.len(),
{
    if k < s.len() {
        cells_of_prefix(s.drop_last(), k, f);
        assert(s.drop_last().take(k) =~= s.take(k));
    } else {
        assert(s.take(k) =~= s);
    }
}

/// Writing the squares of a rank, up to where the first `k` characters of its
/// text lead, gives these characters.
proof fn prefix_written(s: Seq<char>, squares: Squares, rank: int, k: int)
    requires
        usual_rank(s),
        0 <= k <= s.len(),
        forall|f: int| 0 <= f < 8 ==> #[trigger] squares[at(rank, f)] == cells(s)[f],
    ensures
        ({
            let t = s.take(k);
            let (text, run) = rank_text(squares, rank, cells(t).len() as int);
            if k > 0 && is_gap(s[k - 1]) {
                text == s.take(k - 1) && run == gap_length(s[k - 1])
            } else {
                text == t && run == 0
            }
        }),
    decreases k,
{
    if k == 0 {
        assert(s.take(0) =~= seq![]);
        assert(cells(s.take(0)).len() == 0);
    } else {
        prefix_written(s, squares, rank, k - 1);
        let t = s.take(k);
        let u = s.take(k - 1);
        let c = s[k - 1];
        assert(t.drop_last() =~= u);
        assert(t.last() == c);
        let n = cells(u).len() as int;
        cells_of_prefix(s, k, 0);
        if is_gap(c) {
            let d = gap_length(c) as int;
            assert(k >= 2 ==> !is_gap(s[k - 2]));
            assert(rank_text(squares, rank, n) == (u, 0int));
            assert forall|f: int| n <= f < n + d implies (#[trigger] squares[at(rank, f)]) is None by {
                cells_of_prefix(s, k, f);
                assert(cells(t)[f] is None);
            }
            empty_run(squares, rank, u, n, d);
        } else {
            cells_of_prefix(s, k, n);
            assert(cells(t)[n] == letter_piece(c));
            assert(squares[at(rank, n)] == cells(s)[n]);
            let (color, pt) = letter_piece(c)->0;
            assert(piece_letter(color, pt) == c);
            let (text, run) = rank_text(squares, rank, n);
            if k >= 2 && is_gap(s[k - 2]) {
                let g = s[k - 2];
                assert(digit_of(run - 1) == g) by {
                    assert(run == g as int - 48);
                }
                assert(s.take(k - 2) + seq![g] =~= u);
            } else {
                assert(u + gap_text(0) =~= u);
            }
            assert(u.push(c) =~= t);
        }
    }
}

/// Writing the squares of a usual text of a rank gives the text.
proof fn rank_written(s: Seq<char>, squares: Squares, rank: int)
    requires
        usual_rank(s),
        forall|f: int| 0 <= f < 8 ==> #[trigger] squares[at(rank, f)] == cells(s)[f],
    ensures
        full_rank_text(squares, rank) == s,
{
    let k = s.len() as int;
    prefix_written(s, squares, rank, k);
    assert(s.take(k) =~= s);
    if k > 0 && is_gap(s[k - 1]) {
        let g = s[k - 1];
        assert(digit_of(gap_length(g) - 1) == g);
        assert(s.take(k - 1) + seq![g] =~= s);
    } else {
        assert(s + gap_text(0) =~= s);
    }
}

/// The fields with the separator between each two.
spec fn joined(parts: Seq<Seq<char>>, sep: char) -> Seq<char>
    decreases parts.len(),
{
    if parts.len() == 0 {
        seq![]
    } else if parts.len() == 1 {
        parts[0]
    } else {
        joined(parts.drop_last(), sep).push(sep) + parts.last()
    }
}

proof fn fields_join(s: Seq<char>, sep: char)
    ensures
        joined(fields(s, sep), sep) == s,
    decreases s.len(),
{
    if s.len() == 0 {
        assert(s =~= seq![]);
    } else {
        let t = s.drop_last();
        fields_join(t, sep);
        fields_nonempty(t, sep);
        let f = fields(t, sep);
        let g = fields(s, sep);
        assert(t.push(s.last()) =~= s);
        if s.last() == sep {
            assert(g.drop_last() =~= f);
            assert(joined(f, sep).push(sep) + seq![] =~= s);
        } else {
            assert(g.drop_last() =~= f.drop_last());
            assert(g.last() == f.last().push(s.last()));
            if f.len() == 1 {
                assert(g[0] == f[0].push(s.last()));
            } else {
                assert(joined(f.drop_last(), sep).push(sep) + f.last().push(s.last()) =~= (joined(
                    f.drop_last(),
                    sep,
                ).push(sep) + f.last()).push(s.last()));
            }
        }
    }
}

proof fn cells_real(s: Seq<char>, f: int)
    requires
        forall|i: int| 0 <= i < s.len() ==> is_gap(#[trigger] s[i]) || letter_piece(s[i]) is Some,
        0 <= f < cells(s).len(),
    ensures
        cells(s)[f] matches Some((_, pt)) ==> pt != PieceType::NoPiece,
    decreases s.len(),
{
    if s.len() > 0 {
        let t = s.drop_last();
        assert forall|i: int| 0 <= i < t.len() implies is_gap(#[trigger] t[i]) || letter_piece(t[i])
            is Some by {
            assert(t[i] == s[i]);
        }
        if f < cells(t).len() {
            cells_real(t, f);
        }
    }
}

/// A position text in the usual form comes back: what `book_key` writes of the
/// position that it describes are its first four fields.
pub proof fn usual_text_comes_back(fen: Seq<char>)
    requires
        usual_fields(words(fen)),
    ensures
        fen_problem(fen) is None,
        book_text(fen_board(fen)) == four_fields(words(fen)),
{
    let parts = words(fen);
    let ranks = fields(parts[0], '/');
    let squares = squares_of(ranks);
    assert(real_pieces(squares)) by {
        assert forall|s: int| 0 <= s < 64 implies (#[trigger] squares[s] matches Some((c, pt)) ==> pt
            != PieceType::NoPiece) by {
            assert(usual_rank(ranks[7 - s / 8]));
            cells_real(ranks[7 - s / 8], s % 8);
        }
    }
    assert forall|i: int| 0 <= i < 8 implies full_rank_text(squares, 7 - i) == #[trigger] ranks[i] by {
        assert(usual_rank(ranks[i]));
        assert forall|f: int| 0 <= f < 8 implies #[trigger] squares[at(7 - i, f)] == cells(
            ranks[i],
        )[f] by {
            assert((8 * (7 - i) + f) / 8 == 7 - i && (8 * (7 - i) + f) % 8 == f);
        }
        rank_written(ranks[i], squares, 7 - i);
    }
    assert(rank_texts(squares, 8) =~= ranks);
    placement_fields(squares, 8);
    fields_join(parts[0], '/');
    fields_join(placement_text(squares, 8), '/');
    assert(placement_text(squares, 8) == parts[0]);
    ranks_read_back(squares, 8);
    board_read_back(squares);
    assert(fen_pieces(parts)->Ok_0 == board_placements(squares, 8));
    let rights = choose|rights: u8| rights < 16 && parts[2] == #[trigger] rights_text(rights);
    rights_read_back(rights);
    let ep = choose|ep: Option<u8>|
        (ep matches Some(e) ==> e < 64) && parts[3] == #[trigger] ep_text(ep);
    ep_read_back(ep);
    let b = fen_board(fen);
    assert(b.squares == squares);
    assert(b.castling == rights);
    assert(b.ep == ep);
    assert(seq![side_letter(b.side)] == parts[1]) by {
        assert(seq!['w'][0] == 'w' && seq!['b'][0] == 'b');
        assert(seq![side_letter(b.side)] =~= parts[1]);
    }
    assert(book_text(b) =~= four_fields(parts));
}

} // verus!
