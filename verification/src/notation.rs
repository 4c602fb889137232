//! Writing a position and reading it again gives the same position.
use vstd::prelude::*;
use crate::fen::{
    FenError, Placement, book_text, ep_text, fen_board, fen_pieces, fen_problem, full_rank_text,
    gap_text, laid_out, letter_if, letter_piece, lowest_king, named_rights, named_square,
    piece_letter, placement_text, rank_pieces, rank_text, ranks_pieces, rights_text,
    side_letter, two_bytes, undisputed,
};
use crate::geometry::{file, rank, valid};
use crate::moves::{digit_of, letter_of};
use crate::pieces::{Color, PieceType};
use crate::rules::{Board, Squares, at, board_wf, king_at_home, king_of};
use crate::text::{digit_value, fields, is_digit, white_space, word_len, words};
use crate::zobrist::real_pieces;

verus! {

/// No white space in the text.
pub open spec fn solid(s: Seq<char>) -> bool {
    forall|i: int| 0 <= i < s.len() ==> !white_space(#[trigger] s[i])
}

proof fn word_len_solid(w: Seq<char>, rest: Seq<char>)
    requires
        solid(w),
        rest.len() == 0 || white_space(rest[0]),
    ensures
        word_len(w + rest) == w.len(),
    decreases w.len(),
{
    if w.len() == 0 {
        assert(w + rest =~= rest);
    } else {
        assert((w + rest).skip(1) =~= w.skip(1) + rest);
        assert(!white_space(w[0]));
        assert(solid(w.skip(1)));
        word_len_solid(w.skip(1), rest);
    }
}

/// A word in front of a space is the first word.
proof fn first_word(w: Seq<char>, rest: Seq<char>)
    requires
        w.len() > 0,
        solid(w),
    ensures
        words(w.push(' ') + rest) == seq![w] + words(rest),
{
    let tail = seq![' '] + rest;
    let s = w.push(' ') + rest;
    assert(s =~= w + tail);
    word_len_solid(w, tail);
    assert(s.take(w.len() as int) =~= w);
    assert(s.skip(w.len() as int) =~= tail);
    assert(!white_space(w[0]));
    assert(s[0] == w[0]);
    assert(tail.skip(1) =~= rest);
    assert(words(tail) == words(rest));
}

proof fn only_word(w: Seq<char>)
    requires
        w.len() > 0,
        solid(w),
    ensures
        words(w) == seq![w],
{
    word_len_solid(w, seq![]);
    assert(w + Seq::<char>::empty() =~= w);
    assert(w.take(w.len() as int) =~= w);
    assert(w.skip(w.len() as int) =~= seq![]);
    assert(!white_space(w[0]));
    assert(words(w.skip(w.len() as int)) =~= seq![]);
    assert(word_len(w) == w.len());
    assert(words(w) =~= seq![w]);
}

pub proof fn fields_nonempty(s: Seq<char>, sep: char)
    ensures
        fields(s, sep).len() >= 1,
    decreases s.len(),
{
    if s.len() > 0 {
        fields_nonempty(s.drop_last(), sep);
    }
}

/// Text without separators extends the last field.
proof fn fields_extend(a: Seq<char>, b: Seq<char>, sep: char)
    requires
        !b.contains(sep),
    ensures
        fields(a + b, sep) == fields(a, sep).drop_last().push(fields(a, sep).last() + b),
    decreases b.len(),
{
    fields_nonempty(a, sep);
    if b.len() == 0 {
        assert(a + b =~= a);
        assert(fields(a, sep).last() + b =~= fields(a, sep).last());
        assert(fields(a, sep).drop_last().push(fields(a, sep).last()) =~= fields(a, sep));
    } else {
        let c = b.drop_last();
        assert((a + b).drop_last() =~= a + c);
        assert((a + b).last() == b.last());
        assert(!c.contains(sep)) by {
            if c.contains(sep) {
                let i = choose|i: int| 0 <= i < c.len() && c[i] == sep;
                assert(b[i] == sep);
            }
        }
        assert(b.last() != sep) by {
            assert(b[b.len() - 1] == b.last());
        }
        fields_extend(a, c, sep);
        let f = fields(a, sep);
        let g = f.drop_last().push(f.last() + c);
        assert(g.drop_last() =~= f.drop_last());
        assert(g.last() == f.last() + c);
        assert((f.last() + c).push(b.last()) =~= f.last() + b);
    }
}

/// A separator begins a new field.
proof fn fields_next(a: Seq<char>, b: Seq<char>, sep: char)
    requires
        !b.contains(sep),
    ensures
        fields(a.push(sep) + b, sep) == fields(a, sep).push(b),
{
    assert(a.push(sep).drop_last() =~= a);
    assert(fields(a.push(sep), sep) == fields(a, sep).push(seq![]));
    fields_extend(a.push(sep), b, sep);
    let f = fields(a, sep).push(Seq::<char>::empty());
    assert(f.drop_last() =~= fields(a, sep));
    assert(f.last() + b =~= b);
}

/// What the first `n` squares of a rank put on the board.
pub open spec fn rank_placements(squares: Squares, rank: int, n: int) -> Seq<Placement>
    decreases n,
{
    if n <= 0 {
        seq![]
    } else {
        let rest = rank_placements(squares, rank, n - 1);
        match squares[at(rank, n - 1)] {
            None => rest,
            Some((c, pt)) => rest.push((at(rank, n - 1), c, pt)),
        }
    }
}

proof fn letter_read_back(c: Color, pt: PieceType)
    requires
        pt != PieceType::NoPiece,
    ensures
        letter_piece(piece_letter(c, pt)) == Some((c, pt)),
        !is_digit(piece_letter(c, pt)),
        !white_space(piece_letter(c, pt)),
        piece_letter(c, pt) != '/',
{
}

proof fn gap_read_back(run: int)
    requires
        1 <= run <= 8,
    ensures
        is_digit(digit_of(run - 1)),
        digit_value(digit_of(run - 1)) == run,
        !white_space(digit_of(run - 1)),
        digit_of(run - 1) != '/',
{
}

/// A gap behind the text of a rank moves on by its length.
proof fn gap_skips(text: Seq<char>, rank: int, run: int, placed: Seq<Placement>, file: int)
    requires
        0 <= run <= 8,
        rank_pieces(text, rank) == Ok::<(Seq<Placement>, int), FenError>((placed, file)),
    ensures
        rank_pieces(text + gap_text(run), rank) == Ok::<(Seq<Placement>, int), FenError>(
            (placed, file + run),
        ),
{
    if run > 0 {
        gap_read_back(run);
        let t = text + gap_text(run);
        assert(t.drop_last() =~= text);
        assert(t.last() == digit_of(run - 1));
    } else {
        assert(text + gap_text(run) =~= text);
    }
}

/// Reading the text of a rank gives its pieces.
proof fn rank_read_back(squares: Squares, rank: int, n: int)
    requires
        squares.len() == 64,
        real_pieces(squares),
        0 <= rank < 8,
        0 <= n <= 8,
    ensures
        ({
            let (text, run) = rank_text(squares, rank, n);
            &&& 0 <= run <= n
            &&& solid(text)
            &&& !text.contains('/')
            &&& rank_pieces(text, rank) == Ok::<(Seq<Placement>, int), FenError>(
                (rank_placements(squares, rank, n), n - run),
            )
        }),
    decreases n,
{
    if n > 0 {
        rank_read_back(squares, rank, n - 1);
        let (text, run) = rank_text(squares, rank, n - 1);
        let s = at(rank, n - 1);
        assert(valid(s));
        if let Some((c, pt)) = squares[s] {
            letter_read_back(c, pt);
            gap_skips(text, rank, run, rank_placements(squares, rank, n - 1), n - 1 - run);
            if run > 0 {
                gap_read_back(run);
            }
            let head = text + gap_text(run);
            let full = head.push(piece_letter(c, pt));
            assert(full.drop_last() =~= head);
            assert(full.last() == piece_letter(c, pt));
            assert(solid(full)) by {
                assert forall|i: int| 0 <= i < full.len() implies !white_space(#[trigger] full[i]) by {
                    if i < text.len() {
                        assert(!white_space(text[i]));
                    }
                }
            }
            assert(!full.contains('/')) by {
                if full.contains('/') {
                    let i = choose|i: int| 0 <= i < full.len() && full[i] == '/';
                    if i < text.len() {
                        assert(text[i] == '/');
                        assert(text.contains('/'));
                    }
                }
            }
        }
    }
}

/// The text of a whole rank.
proof fn full_rank_read_back(squares: Squares, rank: int)
    requires
        squares.len() == 64,
        real_pieces(squares),
        0 <= rank < 8,
    ensures
        solid(full_rank_text(squares, rank)),
        full_rank_text(squares, rank).len() > 0,
        !full_rank_text(squares, rank).contains('/'),
        rank_pieces(full_rank_text(squares, rank), rank) == Ok::<
            (Seq<Placement>, int),
            FenError,
        >((rank_placements(squares, rank, 8), 8)),
{
    rank_read_back(squares, rank, 8);
    let (text, run) = rank_text(squares, rank, 8);
    gap_skips(text, rank, run, rank_placements(squares, rank, 8), 8 - run);
    if run > 0 {
        gap_read_back(run);
    }
    let full = full_rank_text(squares, rank);
    if full.len() == 0 {
        assert(text.len() == 0);
        assert(text =~= seq![]);
        assert(rank_pieces(text, rank) == Ok::<(Seq<Placement>, int), FenError>((seq![], 0)));
    }
    assert forall|i: int| 0 <= i < full.len() implies !white_space(#[trigger] full[i]) by {
        if i < text.len() {
            assert(!white_space(text[i]));
        }
    }
    if full.contains('/') {
        let i = choose|i: int| 0 <= i < full.len() && full[i] == '/';
        if i < text.len() {
            assert(text[i] == '/');
            assert(text.contains('/'));
        }
    }
}

/// The ranks of a board in text, eighth rank first.
pub open spec fn rank_texts(squares: Squares, n: int) -> Seq<Seq<char>> {
    Seq::new(n as nat, |i: int| full_rank_text(squares, 7 - i))
}

/// Splitting the placement text at its slashes gives the ranks.
pub proof fn placement_fields(squares: Squares, n: int)
    requires
        squares.len() == 64,
        real_pieces(squares),
        1 <= n <= 8,
    ensures
        fields(placement_text(squares, n), '/') == rank_texts(squares, n),
        solid(placement_text(squares, n)),
        placement_text(squares, n).len() > 0,
    decreases n,
{
    full_rank_read_back(squares, 8 - n);
    let last = full_rank_text(squares, 8 - n);
    if n == 1 {
        let empty = Seq::<char>::empty();
        fields_extend(empty, last, '/');
        assert(empty + last =~= last);
        assert(fields(empty, '/') =~= seq![empty]);
        assert(fields(last, '/') =~= rank_texts(squares, 1));
    } else {
        placement_fields(squares, n - 1);
        let head = placement_text(squares, n - 1);
        fields_next(head, last, '/');
        assert(fields(placement_text(squares, n), '/') =~= rank_texts(squares, n));
        let full = head.push('/') + last;
        assert forall|i: int| 0 <= i < full.len() implies !white_space(#[trigger] full[i]) by {
            if i < head.len() {
                assert(!white_space(head[i]));
            } else if i > head.len() {
                assert(!white_space(last[i - head.len() - 1]));
            }
        }
    }
}

/// All pieces of the top `n` ranks.
pub open spec fn board_placements(squares: Squares, n: int) -> Seq<Placement>
    decreases n,
{
    if n <= 0 {
        seq![]
    } else {
        board_placements(squares, n - 1) + rank_placements(squares, 8 - n, 8)
    }
}

pub proof fn ranks_read_back(squares: Squares, n: int)
    requires
        squares.len() == 64,
        real_pieces(squares),
        0 <= n <= 8,
    ensures
        ranks_pieces(rank_texts(squares, 8), n) == Ok::<Seq<Placement>, FenError>(
            board_placements(squares, n),
        ),
    decreases n,
{
    if n > 0 {
        ranks_read_back(squares, n - 1);
        full_rank_read_back(squares, 8 - n);
    }
}

/// The placements tell the truth about the board.
spec fn truthful(squares: Squares, placed: Seq<Placement>) -> bool {
    forall|i: int|
        0 <= i < placed.len() ==> 0 <= (#[trigger] placed[i]).0 < 64 && squares[placed[i].0]
            == Some((placed[i].1, placed[i].2))
}

proof fn rank_truthful(squares: Squares, rank: int, n: int)
    requires
        0 <= rank < 8,
        0 <= n <= 8,
    ensures
        truthful(squares, rank_placements(squares, rank, n)),
        forall|f: int|
            0 <= f < n ==> (#[trigger] squares[at(rank, f)] matches Some((c, pt))
                ==> rank_placements(squares, rank, n).contains((at(rank, f), c, pt))),
    decreases n,
{
    if n > 0 {
        rank_truthful(squares, rank, n - 1);
        let rest = rank_placements(squares, rank, n - 1);
        let all = rank_placements(squares, rank, n);
        assert forall|f: int| 0 <= f < n implies (#[trigger] squares[at(rank, f)] matches Some((c, pt))
            ==> all.contains((at(rank, f), c, pt))) by {
            if let Some((c, pt)) = squares[at(rank, f)] {
                if f == n - 1 {
                    assert(all[all.len() - 1] == (at(rank, f), c, pt));
                } else {
                    assert(rest.contains((at(rank, f), c, pt)));
                    let i = choose|i: int| 0 <= i < rest.len() && rest[i] == (at(rank, f), c, pt);
                    assert(all[i] == rest[i]);
                }
            }
        }
    }
}

proof fn board_truthful(squares: Squares, n: int)
    requires
        0 <= n <= 8,
    ensures
        truthful(squares, board_placements(squares, n)),
        forall|s: int|
            8 * (8 - n) <= s < 64 ==> (#[trigger] squares[s] matches Some((c, pt))
                ==> board_placements(squares, n).contains((s, c, pt))),
    decreases n,
{
    if n > 0 {
        board_truthful(squares, n - 1);
        rank_truthful(squares, 8 - n, 8);
        let a = board_placements(squares, n - 1);
        let z = rank_placements(squares, 8 - n, 8);
        let all = board_placements(squares, n);
        assert forall|i: int| 0 <= i < all.len() implies 0 <= (#[trigger] all[i]).0 < 64
            && squares[all[i].0] == Some((all[i].1, all[i].2)) by {
            if i < a.len() {
                assert(all[i] == a[i]);
            } else {
                assert(all[i] == z[i - a.len()]);
            }
        }
        assert forall|s: int| 8 * (8 - n) <= s < 64 implies (#[trigger] squares[s] matches Some((c, pt))
            ==> all.contains((s, c, pt))) by {
            if let Some((c, pt)) = squares[s] {
                if s >= 8 * (9 - n) {
                    assert(a.contains((s, c, pt)));
                    let i = choose|i: int| 0 <= i < a.len() && a[i] == (s, c, pt);
                    assert(all[i] == a[i]);
                } else {
                    let f = s - 8 * (8 - n);
                    assert(s == at(8 - n, f));
                    assert(squares[at(8 - n, f)] is Some);
                    assert(z.contains((s, c, pt)));
                    let i = choose|i: int| 0 <= i < z.len() && z[i] == (s, c, pt);
                    assert(all[a.len() + i] == z[i]);
                }
            }
        }
    }
}

/// Truthful placements lay out a part of the board.
proof fn laid_out_truthful(squares: Squares, placed: Seq<Placement>, s: int)
    requires
        truthful(squares, placed),
        0 <= s < 64,
    ensures
        laid_out(placed).len() == 64,
        laid_out(placed)[s] is None || laid_out(placed)[s] == squares[s],
        squares[s] matches Some((c, pt)) ==> placed.contains((s, c, pt)) ==> laid_out(placed)[s]
            == squares[s],
    decreases placed.len(),
{
    if placed.len() > 0 {
        let rest = placed.drop_last();
        let x = placed[placed.len() - 1];
        assert(truthful(squares, rest)) by {
            assert forall|i: int| 0 <= i < rest.len() implies 0 <= (#[trigger] rest[i]).0 < 64
                && squares[rest[i].0] == Some((rest[i].1, rest[i].2)) by {
                assert(rest[i] == placed[i]);
            }
        }
        laid_out_truthful(squares, rest, s);
        assert(0 <= x.0 < 64);
        if let Some((c, pt)) = squares[s] {
            if placed.contains((s, c, pt)) && x.0 != s {
                let i = choose|i: int| 0 <= i < placed.len() && placed[i] == (s, c, pt);
                assert(rest[i] == (s, c, pt));
                assert(rest.contains((s, c, pt)));
            }
        }
    }
}

/// Reading the placement text gives the board.
pub proof fn board_read_back(squares: Squares)
    requires
        squares.len() == 64,
        real_pieces(squares),
    ensures
        laid_out(board_placements(squares, 8)) == squares,
{
    let placed = board_placements(squares, 8);
    board_truthful(squares, 8);
    assert forall|s: int| 0 <= s < 64 implies laid_out(placed)[s] == squares[s] by {
        laid_out_truthful(squares, placed, s);
        let x = squares[s];
    }
    laid_out_truthful(squares, placed, 0);
    assert(laid_out(placed) =~= squares);
}

pub proof fn rights_read_back(rights: u8)
    requires
        rights < 16,
    ensures
        named_rights(rights_text(rights)) == rights,
        solid(rights_text(rights)),
        rights_text(rights).len() > 0,
{
    let t = rights_text(rights);
    let k = letter_if(rights & 1 != 0, 'K');
    let q = letter_if(rights & 2 != 0, 'Q');
    let l = letter_if(rights & 4 != 0, 'k');
    let r = letter_if(rights & 8 != 0, 'q');
    let named = k + q + l + r;
    assert(rights == (rights & 1) + (rights & 2) + (rights & 4) + (rights & 8) && (rights & 1 == 0
        || rights & 1 == 1) && (rights & 2 == 0 || rights & 2 == 2) && (rights & 4 == 0 || rights & 4
        == 4) && (rights & 8 == 0 || rights & 8 == 8)) by (bit_vector)
        requires
            rights < 16,
    ;
    if rights & 1 != 0 {
        assert(named[0] == 'K');
    }
    if rights & 2 != 0 {
        assert(named[k.len() as int] == 'Q');
    }
    if rights & 4 != 0 {
        assert(named[(k + q).len() as int] == 'k');
    }
    if rights & 8 != 0 {
        assert(named[(k + q + l).len() as int] == 'q');
    }
    assert(t.contains('K') <==> rights & 1 != 0);
    assert(t.contains('Q') <==> rights & 2 != 0);
    assert(t.contains('k') <==> rights & 4 != 0);
    assert(t.contains('q') <==> rights & 8 != 0);
}

pub proof fn ep_read_back(ep: Option<u8>)
    requires
        ep matches Some(e) ==> e < 64,
    ensures
        ep == if ep_text(ep) == seq!['-'] {
            None
        } else {
            named_square(ep_text(ep))
        },
        solid(ep_text(ep)),
        ep_text(ep).len() > 0,
{
    let t = ep_text(ep);
    if let Some(e) = ep {
        let f = file(e as int);
        let r = rank(e as int);
        assert(t.len() == 2);
        assert(t[0] == letter_of(f) && t[1] == digit_of(r));
        assert(t[0] as int == 97 + f && t[1] as int == 49 + r);
        assert(two_bytes(t) == Some(((97 + f) as u8, (49 + r) as u8)));
        assert(8 * r + f == e);
    }
}

/// The four words of the text of a position.
proof fn book_words(b: Board)
    requires
        board_wf(b),
        b.ep matches Some(e) ==> e < 64,
    ensures
        words(book_text(b)) == seq![
            placement_text(b.squares, 8),
            seq![side_letter(b.side)],
            rights_text(b.castling),
            ep_text(b.ep),
        ],
        real_pieces(b.squares),
{
    assert(real_pieces(b.squares)) by {
        assert forall|s: int| valid(s) implies (#[trigger] b.squares[s] matches Some((c, pt)) ==> pt
            != PieceType::NoPiece) by {}
    }
    let p = placement_text(b.squares, 8);
    let side = seq![side_letter(b.side)];
    let rights = rights_text(b.castling);
    let ep = ep_text(b.ep);
    placement_fields(b.squares, 8);
    rights_read_back(b.castling);
    ep_read_back(b.ep);
    let t3 = ep;
    let t2 = rights.push(' ') + t3;
    let t1 = side.push(' ') + t2;
    let t0 = p.push(' ') + t1;
    assert(book_text(b) =~= t0);
    first_word(p, t1);
    assert(solid(side));
    first_word(side, t2);
    first_word(rights, t3);
    only_word(ep);
    assert(words(t0) =~= seq![p, side, rights, ep]);
}

/// The lowest king among the placements of a board that makes sense is the
/// king.
proof fn king_read_back(b: Board, c: Color, s: int)
    requires
        board_wf(b),
        0 <= s <= king_of(b, c),
    ensures
        lowest_king(board_placements(b.squares, 8), c, s) == king_of(b, c),
    decreases king_of(b, c) - s,
{
    let placed = board_placements(b.squares, 8);
    board_truthful(b.squares, 8);
    assert(king_at_home(b, Color::White) && king_at_home(b, Color::Black));
    assert(king_at_home(b, c));
    if placed.contains((s, c, PieceType::King)) {
        let i = choose|i: int| 0 <= i < placed.len() && placed[i] == (s, c, PieceType::King);
        assert(b.squares[placed[i].0] == Some((placed[i].1, placed[i].2)));
        assert(valid(s));
    } else {
        if s == king_of(b, c) {
            assert(b.squares[s] == Some((c, PieceType::King)));
        }
        king_read_back(b, c, s + 1);
    }
}

/// Reading what `book_key` writes gives the board back; the counters, which are
/// not written, start afresh.
pub proof fn book_text_reads_back(b: Board)
    requires
        board_wf(b),
        b.ep matches Some(e) ==> e < 64,
    ensures
        fen_problem(book_text(b)) is None,
        undisputed(fen_pieces(words(book_text(b)))->Ok_0),
        fen_board(book_text(b)) == (Board { halfmove: 0, fullmove: 1, ..b }),
{
    book_words(b);
    let parts = words(book_text(b));
    placement_fields(b.squares, 8);
    assert(rank_texts(b.squares, 8) =~= fields(parts[0], '/'));
    ranks_read_back(b.squares, 8);
    let placed = board_placements(b.squares, 8);
    assert(fen_pieces(parts) == Ok::<Seq<Placement>, FenError>(placed));
    board_read_back(b.squares);
    board_truthful(b.squares, 8);
    rights_read_back(b.castling);
    ep_read_back(b.ep);
    assert(king_at_home(b, Color::White) && king_at_home(b, Color::Black));
    king_read_back(b, Color::White, 0);
    king_read_back(b, Color::Black, 0);
    assert(seq![side_letter(b.side)] == seq!['w'] <==> b.side == Color::White) by {
        assert(seq![side_letter(b.side)][0] == side_letter(b.side));
        assert(seq!['w'][0] == 'w');
    }
    let c = fen_board(book_text(b));
    assert(c.kings =~= b.kings);
    assert(c.squares == b.squares);
    assert forall|i: int| 0 <= i < placed.len() implies laid_out(placed)[(#[trigger] placed[i]).0]
        == Some((placed[i].1, placed[i].2)) by {
        assert(b.squares[placed[i].0] == Some((placed[i].1, placed[i].2)));
    }
}

} // verus!
