//! Position text (FEN): what it means, reading it, and writing the part of it
//! that names a position in an opening book.
use vstd::prelude::*;
use crate::bitboard::{bit, file_of, rank_of, sq};
use crate::bits::{group_bits, lowest, no_members, on};
use crate::context::Context;
use crate::geometry::{file, on_ray, rank, valid};
use crate::moves::{digit_of, file_letter, rank_digit, square_name};
use crate::nnue::accum::Accumulator;
use crate::pieces::{Color, PieceType};
use crate::position::{CR_BK, CR_BQ, CR_WK, CR_WQ, Position, board_features, seen_king, seen_kings};
use crate::rules::{
    Board, Squares, at, attacks_from, board_wf, in_check, king_at_home, occupied, playable,
};
use crate::safety::{aims, attack_forms, leaps, piece_on};
use crate::text::{
    code_point, contains_letter, digit_value, fields, is_digit, letters, parse_u16, read_u16,
    spells, split_fields, split_words, texts, words,
};
use crate::zobrist::{
    compute_full, masks_agree, masks_hash, masks_hash_agrees, real_pieces, state_hash,
};
use vstd::arithmetic::div_mod::lemma_mod_multiples_vanish;
use vstd::std_specs::bits::axiom_u64_trailing_zeros;

verus! {

broadcast use group_bits;

/// Why a position text was refused.
#[derive(Copy, Clone, Debug, PartialEq, Eq, Structural)]
pub enum FenError {
    TooFewFields,
    WrongRankCount,
    BadPiece(char),
    OffBoard,
}

/// A piece and the square it is put on.
pub type Placement = (int, Color, PieceType);

/// The piece that a letter stands for: capital letters are white.
pub open spec fn letter_piece(c: char) -> Option<(Color, PieceType)> {
    match c {
        'P' => Some((Color::White, PieceType::Pawn)),
        'N' => Some((Color::White, PieceType::Knight)),
        'B' => Some((Color::White, PieceType::Bishop)),
        'R' => Some((Color::White, PieceType::Rook)),
        'Q' => Some((Color::White, PieceType::Queen)),
        'K' => Some((Color::White, PieceType::King)),
        'p' => Some((Color::Black, PieceType::Pawn)),
        'n' => Some((Color::Black, PieceType::Knight)),
        'b' => Some((Color::Black, PieceType::Bishop)),
        'r' => Some((Color::Black, PieceType::Rook)),
        'q' => Some((Color::Black, PieceType::Queen)),
        'k' => Some((Color::Black, PieceType::King)),
        _ => None,
    }
}

fn piece_of(c: char) -> (r: Option<(Color, PieceType)>)
    ensures
        r == letter_piece(c),
{
    match c {
        'P' => Some((Color::White, PieceType::Pawn)),
        'N' => Some((Color::White, PieceType::Knight)),
        'B' => Some((Color::White, PieceType::Bishop)),
        'R' => Some((Color::White, PieceType::Rook)),
        'Q' => Some((Color::White, PieceType::Queen)),
        'K' => Some((Color::White, PieceType::King)),
        'p' => Some((Color::Black, PieceType::Pawn)),
        'n' => Some((Color::Black, PieceType::Knight)),
        'b' => Some((Color::Black, PieceType::Bishop)),
        'r' => Some((Color::Black, PieceType::Rook)),
        'q' => Some((Color::Black, PieceType::Queen)),
        'k' => Some((Color::Black, PieceType::King)),
        _ => None,
    }
}

/// What the text of one rank puts on the board, from file a on, and the file
/// where it ends: a digit skips that many files, a letter is a piece. The end
/// of a rank is not checked, but no piece may lie beyond the last square.
pub open spec fn rank_pieces(s: Seq<char>, rank: int) -> Result<(Seq<Placement>, int), FenError>
    decreases s.len(),
{
    if s.len() == 0 {
        Ok((seq![], 0))
    } else {
        match rank_pieces(s.drop_last(), rank) {
            Err(e) => Err(e),
            Ok((placed, file)) => if is_digit(s.last()) {
                Ok((placed, file + digit_value(s.last())))
            } else {
                match letter_piece(s.last()) {
                    None => Err(FenError::BadPiece(s.last())),
                    Some((c, pt)) => if 8 * rank + file >= 64 {
                        Err(FenError::OffBoard)
                    } else {
                        Ok((placed.push((8 * rank + file, c, pt)), file + 1))
                    },
                }
            },
        }
    }
}

/// What the first `n` ranks put on the board, eighth rank first.
pub open spec fn ranks_pieces(ranks: Seq<Seq<char>>, n: int) -> Result<Seq<Placement>, FenError>
    decreases n,
{
    if n <= 0 {
        Ok(seq![])
    } else {
        match ranks_pieces(ranks, n - 1) {
            Err(e) => Err(e),
            Ok(placed) => match rank_pieces(ranks[n - 1], 8 - n) {
                Err(e) => Err(e),
                Ok((more, _)) => Ok(placed + more),
            },
        }
    }
}

/// The squares after all pieces have been put on them, one after the other.
pub open spec fn laid_out(placed: Seq<Placement>) -> Squares
    decreases placed.len(),
{
    if placed.len() == 0 {
        Seq::new(64, |s: int| None)
    } else {
        laid_out(placed.drop_last()).update(
            placed.last().0,
            Some((placed.last().1, placed.last().2)),
        )
    }
}

/// The two bytes of a text that has two.
pub open spec fn two_bytes(s: Seq<char>) -> Option<(u8, u8)> {
    if s.len() == 2 && (s[0] as int) < 0x80 && (s[1] as int) < 0x80 {
        Some((s[0] as u8, s[1] as u8))
    } else if s.len() == 1 && 0x80 <= s[0] as int && (s[0] as int) < 0x800 {
        Some(((0xc0 + s[0] as int / 64) as u8, (0x80 + s[0] as int % 64) as u8))
    } else {
        None
    }
}

/// The en-passant square that a text names, in arithmetic modulo 256.
pub open spec fn named_square(s: Seq<char>) -> Option<u8> {
    match two_bytes(s) {
        Some((f, r)) => Some(((8 * (r - 49) + (f - 97)) % 256) as u8),
        None => None,
    }
}

pub open spec fn named_rights(s: Seq<char>) -> u8 {
    ((if s.contains('K') {
        1int
    } else {
        0
    }) + (if s.contains('Q') {
        2int
    } else {
        0
    }) + (if s.contains('k') {
        4int
    } else {
        0
    }) + (if s.contains('q') {
        8int
    } else {
        0
    })) as u8
}

/// The number in field `i`, or a default where there is none.
pub open spec fn number_field(parts: Seq<Seq<char>>, i: int, default_value: u16) -> u16 {
    if i < parts.len() {
        match read_u16(parts[i]) {
            Some(v) => v,
            None => default_value,
        }
    } else {
        default_value
    }
}

/// The pieces that a position text with enough fields puts on the board.
pub open spec fn fen_pieces(parts: Seq<Seq<char>>) -> Result<Seq<Placement>, FenError> {
    ranks_pieces(fields(parts[0], '/'), 8)
}

/// The first thing that is wrong with a position text.
pub open spec fn fen_problem(fen: Seq<char>) -> Option<FenError> {
    let parts = words(fen);
    if parts.len() < 4 {
        Some(FenError::TooFewFields)
    } else if fields(parts[0], '/').len() != 8 {
        Some(FenError::WrongRankCount)
    } else {
        match fen_pieces(parts) {
            Err(e) => Some(e),
            Ok(_) => None,
        }
    }
}

/// The lowest member of a mask; 64 if it has none.
pub open spec fn lowest_or_64(bb: u64) -> int {
    vstd::std_specs::bits::u64_trailing_zeros(bb) as int
}

/// The lowest square from `s` on where a king of the colour was put; 64 if there
/// is none.
pub open spec fn lowest_king(placed: Seq<Placement>, c: Color, s: int) -> int
    decreases 64 - s,
{
    if s >= 64 {
        64
    } else if placed.contains((s, c, PieceType::King)) {
        s
    } else {
        lowest_king(placed, c, s + 1)
    }
}

/// The board that a well-formed position text describes.
pub open spec fn fen_board(fen: Seq<char>) -> Board {
    let parts = words(fen);
    let placed = fen_pieces(parts)->Ok_0;
    Board {
        squares: laid_out(placed),
        side: if parts[1] == seq!['w'] {
            Color::White
        } else {
            Color::Black
        },
        castling: named_rights(parts[2]),
        ep: if parts[3] == seq!['-'] {
            None
        } else {
            named_square(parts[3])
        },
        halfmove: number_field(parts, 4, 0),
        fullmove: number_field(parts, 5, 1),
        kings: seq![
            lowest_king(placed, Color::White, 0) as u8,
            lowest_king(placed, Color::Black, 0) as u8,
        ],
    }
}

/// `pos` is what a well-formed position text describes.
pub open spec fn fen_describes(fen: Seq<char>, pos: Position) -> bool {
    let parts = words(fen);
    let placed = fen_pieces(parts)->Ok_0;
    &&& pos@ == fen_board(fen)
    &&& holds_placed(pos.pieces, placed)
    &&& forall|c: Color, s: int|
        valid(s) ==> (#[trigger] on(pos.occ[c.index()], s) <==> exists|pt: PieceType|
            #[trigger] placed.contains((s, c, pt)))
    &&& forall|s: int|
        #[trigger] on(pos.occ_all, s) <==> on(pos.occ[0], s) || on(pos.occ[1], s)
}

/// The masks hold exactly the pieces that were put down.
pub open spec fn holds_placed(pieces: [[u64; 6]; 2], placed: Seq<Placement>) -> bool {
    forall|c: Color, pt: PieceType, s: int|
        valid(s) && pt != PieceType::NoPiece ==> (#[trigger] on(pieces[c.index()][pt.index()], s)
            <==> placed.contains((s, c, pt)))
}

/// Key, history and accumulators of a position that has just been set up.
pub open spec fn set_up(pos: Position) -> bool {
    &&& pos.zobrist_key == masks_hash(pos.pieces, 64, 12) ^ state_hash(
        pos.side_to_move,
        pos.castling_rights,
        pos.ep_square,
    )
    &&& pos.undo_stack@.len() == 0
    &&& !pos.nnue_dirty@[0]
    &&& !pos.nnue_dirty@[1]
    &&& pos.ctx.nnue matches Some(ev) ==> forall|p: int|
        0 <= p < 2 ==> (#[trigger] pos.nnue_accum@[p]).accumulates(
            ev.feature_transformer,
            board_features(pos.mailbox@, p, seen_king(pos.mailbox@, p)),
        )
}

proof fn rank_pieces_error(s: Seq<char>, rank: int, k: int)
    requires
        0 <= k <= s.len(),
    ensures
        rank_pieces(s.take(k), rank) matches Err(e) ==> rank_pieces(s, rank) == Err::<
            (Seq<Placement>, int),
            FenError,
        >(e),
    decreases s.len() - k,
{
    if k < s.len() {
        assert(s.take(k + 1).drop_last() =~= s.take(k));
        rank_pieces_error(s, rank, k + 1);
    } else {
        assert(s.take(k) =~= s);
    }
}

proof fn ranks_pieces_error(ranks: Seq<Seq<char>>, k: int, n: int)
    requires
        k <= n,
    ensures
        ranks_pieces(ranks, k) matches Err(e) ==> ranks_pieces(ranks, n) == Err::<
            Seq<Placement>,
            FenError,
        >(e),
    decreases n - k,
{
    if k < n {
        ranks_pieces_error(ranks, k, n - 1);
    }
}

/// A board that is being laid out.
struct Layout {
    pieces: [[u64; 6]; 2],
    mailbox: [Option<(Color, PieceType)>; 64],
}

impl Layout {
    spec fn holds(self, placed: Seq<Placement>) -> bool {
        &&& self.mailbox@ == laid_out(placed)
        &&& holds_placed(self.pieces, placed)
    }

    /// Puts one more piece on the board.
    fn put(&mut self, color: Color, pt: PieceType, s: u8, Ghost(placed): Ghost<Seq<Placement>>)
        requires
            s < 64,
            pt != PieceType::NoPiece,
            old(self).holds(placed),
        ensures
            final(self).holds(placed.push((s as int, color, pt))),
    {
        let ghost more = placed.push((s as int, color, pt));
        proof {
            assert(more.drop_last() =~= placed);
        }
        let ghost old_pieces = self.pieces;
        self.pieces[color.idx()][pt.idx()] = self.pieces[color.idx()][pt.idx()] | bit(s);
        self.mailbox[s as usize] = Some((color, pt));
        proof {
            assert forall|c: Color, q: PieceType, t: int|
                valid(t) && q != PieceType::NoPiece implies (#[trigger] on(
                self.pieces[c.index()][q.index()],
                t,
            ) <==> more.contains((t, c, q))) by {
                let x = (t, c, q);
                assert(on(old_pieces[c.index()][q.index()], t) <==> placed.contains(x));
                if more.contains(x) {
                    let i = choose|i: int| 0 <= i < more.len() && more[i] == x;
                    if i < placed.len() {
                        assert(placed[i] == x);
                    }
                }
                if placed.contains(x) {
                    let i = choose|i: int| 0 <= i < placed.len() && placed[i] == x;
                    assert(more[i] == x);
                }
                assert(more[placed.len() as int] == (s as int, color, pt));
                assert((c.index() == color.index() && q.index() == pt.index()) <==> (c == color && q
                    == pt));
            }
            assert(holds_placed(self.pieces, more));
            assert(self.mailbox@ =~= laid_out(more));
        }
    }

    /// Puts the pieces of one rank on the board.
    fn put_rank(
        &mut self,
        text: &Vec<char>,
        rank: u8,
        Ghost(placed): Ghost<Seq<Placement>>,
    ) -> (r: Option<FenError>)
        requires
            rank < 8,
            old(self).holds(placed),
        ensures
            match rank_pieces(text@, rank as int) {
                Err(e) => r == Some(e),
                Ok((more, _)) => r is None && final(self).holds(placed + more),
            },
    {
        let mut file: u8 = 0;
        let mut i: usize = 0;
        let ghost mut all = placed;
        proof {
            assert(text@.take(0) =~= seq![]);
            assert(placed + seq![] =~= placed);
        }
        while i < text.len()
            invariant
                i <= text.len(),
                rank < 8,
                file <= 64,
                self.holds(all),
                rank_pieces(text@.take(i as int), rank as int) matches Ok((more, f)) && all == placed
                    + more && file == (if f < 64 {
                    f
                } else {
                    64
                }) && f >= 0,
            decreases text.len() - i,
        {
            let c = text[i];
            proof {
                assert(text@.take(i + 1).drop_last() =~= text@.take(i as int));
                rank_pieces_error(text@, rank as int, i + 1);
            }
            if '0' <= c && c <= '9' {
                let d: u8 = (c as u32 - '0' as u32) as u8;
                file = if file + d < 64 {
                    file + d
                } else {
                    64
                };
            } else {
                match piece_of(c) {
                    None => {
                        return Some(FenError::BadPiece(c));
                    },
                    Some((color, pt)) => {
                        let s: u8 = sq(rank, file);
                        if s >= 64 {
                            return Some(FenError::OffBoard);
                        }
                        self.put(color, pt, s, Ghost(all));
                        proof {
                            let more = rank_pieces(text@.take(i as int), rank as int)->Ok_0.0;
                            all = all.push((s as int, color, pt));
                            assert(all =~= placed + more.push((s as int, color, pt)));
                        }
                        file = file + 1;
                    },
                }
            }
            i += 1;
        }
        proof {
            assert(text@.take(i as int) =~= text@);
        }
        None
    }
}

/// A board with nothing on it.
fn empty_layout() -> (r: Layout)
    ensures
        r.holds(seq![]),
{
    let r = Layout { pieces: [[0u64; 6]; 2], mailbox: [None; 64] };
    proof {
        assert(r.mailbox@ =~= laid_out(seq![]));
    }
    r
}

fn read_rights(text: &Vec<char>) -> (r: u8)
    ensures
        r == named_rights(text@),
{
    let mut rights: u8 = 0;
    if contains_letter(text, 'K') {
        rights = rights + CR_WK;
    }
    if contains_letter(text, 'Q') {
        rights = rights + CR_WQ;
    }
    if contains_letter(text, 'k') {
        rights = rights + CR_BK;
    }
    if contains_letter(text, 'q') {
        rights = rights + CR_BQ;
    }
    rights
}

fn read_square(text: &Vec<char>) -> (r: Option<u8>)
    ensures
        r == named_square(text@),
{
    let (f, k): (u8, u8) = if text.len() == 2 {
        let a = code_point(text[0]);
        let b = code_point(text[1]);
        if a >= 0x80 || b >= 0x80 {
            return None;
        }
        (a as u8, b as u8)
    } else if text.len() == 1 {
        let c = code_point(text[0]);
        if c < 0x80 || c >= 0x800 {
            return None;
        }
        ((0xc0 + c / 64) as u8, (0x80 + c % 64) as u8)
    } else {
        return None;
    };
    Some(square_of_bytes(f, k))
}

fn square_of_bytes(f: u8, k: u8) -> (r: u8)
    ensures
        r == (8 * (k - 49) + (f - 97)) % 256,
{
    let file: u32 = f as u32 + 256 - 97;
    let rank: u32 = k as u32 + 256 - 49;
    proof {
        let x = 8 * (k - 49) + (f - 97);
        assert(8 * rank + file == 256 * 9 + x);
        lemma_mod_multiples_vanish(9, x, 256);
    }
    ((8 * rank + file) % 256) as u8
}

fn read_number(parts: &Vec<Vec<char>>, i: usize, default_value: u16) -> (r: u16)
    ensures
        r == number_field(texts(parts@), i as int, default_value),
{
    if i < parts.len() {
        proof {
            assert(texts(parts@)[i as int] == parts@[i as int]@);
        }
        match parse_u16(&parts[i]) {
            Some(v) => v,
            None => default_value,
        }
    } else {
        default_value
    }
}

/// The state of a position that does not lie on the board.
struct Setup {
    side_to_move: Color,
    castling_rights: u8,
    ep_square: Option<u8>,
    halfmove_clock: u16,
    fullmove_number: u16,
}

/// A position with the given board and state, with fresh key, history and
/// accumulators.
fn assemble<'a>(ctx: &'a Context, layout: Layout, setup: Setup) -> (r: Position<'a>)
    requires
        ctx.wf(),
    ensures
        r.ctx == ctx,
        r.mailbox == layout.mailbox,
        r.pieces == layout.pieces,
        forall|c: Color, s: int|
            #[trigger] on(r.occ[c.index()], s) <==> exists|pt: PieceType|
                pt != PieceType::NoPiece && on(#[trigger] layout.pieces[c.index()][pt.index()], s),
        forall|s: int| #[trigger] on(r.occ_all, s) <==> on(r.occ[0], s) || on(r.occ[1], s),
        r.side_to_move == setup.side_to_move,
        r.castling_rights == setup.castling_rights,
        r.ep_square == setup.ep_square,
        r.halfmove_clock == setup.halfmove_clock,
        r.fullmove_number == setup.fullmove_number,
        r.king_square@[0] == lowest_or_64(r.pieces[0][5]),
        r.king_square@[1] == lowest_or_64(r.pieces[1][5]),
        set_up(r),
{
    let white = union_of(&layout.pieces[0]);
    let black = union_of(&layout.pieces[1]);
    let occ: [u64; 2] = [white, black];
    let king_square: [u8; 2] = [
        layout.pieces[0][5].trailing_zeros() as u8,
        layout.pieces[1][5].trailing_zeros() as u8,
    ];
    let mut pos = Position {
        ctx,
        pieces: layout.pieces,
        occ,
        occ_all: white | black,
        mailbox: layout.mailbox,
        side_to_move: setup.side_to_move,
        castling_rights: setup.castling_rights,
        ep_square: setup.ep_square,
        halfmove_clock: setup.halfmove_clock,
        fullmove_number: setup.fullmove_number,
        king_square,
        zobrist_key: 0,
        undo_stack: Vec::new(),
        nnue_accum: [Accumulator::new_zeroed(), Accumulator::new_zeroed()],
        nnue_dirty: [false, false],
    };
    pos.zobrist_key = compute_full(&pos);
    pos.refresh_all_nnue_accumulators();
    proof {
        assert forall|c: Color, s: int|
            #[trigger] on(pos.occ[c.index()], s) <==> exists|pt: PieceType|
                pt != PieceType::NoPiece && on(#[trigger] layout.pieces[c.index()][pt.index()], s) by {
            let row = layout.pieces[c.index()];
            if on(pos.occ[c.index()], s) {
                let i = choose|i: int| 0 <= i < 6 && on(#[trigger] row[i], s);
                let pt = PieceType::of_index(i);
                assert(pt.index() == i);
                assert(on(layout.pieces[c.index()][pt.index()], s));
            }
            if exists|pt: PieceType|
                pt != PieceType::NoPiece && on(#[trigger] layout.pieces[c.index()][pt.index()], s) {
                let pt = choose|pt: PieceType|
                    pt != PieceType::NoPiece && on(
                        #[trigger] layout.pieces[c.index()][pt.index()],
                        s,
                    );
                assert(on(row[pt.index()], s));
            }
        }
    }
    pos
}

/// The union of six masks.
pub(crate) fn union_of(row: &[u64; 6]) -> (r: u64)
    ensures
        forall|s: int| #[trigger] on(r, s) <==> exists|i: int| 0 <= i < 6 && on(#[trigger] row[i], s),
{
    let r: u64 = row[0] | row[1] | row[2] | row[3] | row[4] | row[5];
    proof {
        assert forall|s: int| #[trigger] on(r, s) <==> exists|i: int|
            0 <= i < 6 && on(#[trigger] row[i], s) by {
            if on(r, s) {
                assert(on(row[0], s) || on(row[1], s) || on(row[2], s) || on(row[3], s) || on(
                    row[4],
                    s,
                ) || on(row[5], s));
            }
            if exists|i: int| 0 <= i < 6 && on(#[trigger] row[i], s) {
                let i = choose|i: int| 0 <= i < 6 && on(#[trigger] row[i], s);
                assert(i == 0 || i == 1 || i == 2 || i == 3 || i == 4 || i == 5);
            }
        }
    }
    r
}

impl<'a> Position<'a> {
    /// Sets up the position that a text describes.
    ///
    /// The text need not describe a position that can be played from.
    pub fn from_fen(ctx: &'a Context, fen: &str) -> (r: Result<Position<'a>, FenError>)
        requires
            ctx.wf(),
        ensures
            match fen_problem(fen@) {
                Some(e) => r matches Err(f) && f == e,
                None => r matches Ok(pos) && pos.ctx == ctx && fen_describes(fen@, pos) && set_up(
                    pos,
                ),
            },
    {
        let text = letters(fen);
        let parts = split_words(&text);
        let ghost ws = words(fen@);
        proof {
            assert(parts@.len() == ws.len());
        }
        if parts.len() < 4 {
            return Err(FenError::TooFewFields);
        }
        proof {
            assert forall|i: int| 0 <= i < parts@.len() implies ws[i] == parts@[i]@ by {
                assert(texts(parts@)[i] == parts@[i]@);
            }
        }
        let halfmove_clock = read_number(&parts, 4, 0);
        let fullmove_number = read_number(&parts, 5, 1);
        let ranks = split_fields(&parts[0], '/');
        let ghost rs = fields(ws[0], '/');
        proof {
            assert(texts(ranks@) == rs);
            assert(ranks@.len() == rs.len());
        }
        if ranks.len() != 8 {
            return Err(FenError::WrongRankCount);
        }
        let mut layout = empty_layout();
        let ghost mut placed: Seq<Placement> = seq![];
        let mut i: usize = 0;
        while i < 8
            invariant
                i <= 8,
                ranks@.len() == 8,
                texts(ranks@) == rs,
                ws == words(fen@),
                ws.len() >= 4,
                rs == fields(ws[0], '/'),
                rs.len() == 8,
                layout.holds(placed),
                ranks_pieces(rs, i as int) == Ok::<Seq<Placement>, FenError>(placed),
            decreases 8 - i,
        {
            proof {
                assert(texts(ranks@)[i as int] == ranks@[i as int]@);
                ranks_pieces_error(rs, i + 1, 8);
            }
            if let Some(e) = layout.put_rank(&ranks[i], (7 - i) as u8, Ghost(placed)) {
                return Err(e);
            }
            proof {
                placed = placed + rank_pieces(rs[i as int], 7 - i)->Ok_0.0;
            }
            i += 1;
        }
        proof {
            reveal_strlit("w");
            reveal_strlit("-");
            assert("w"@ =~= seq!['w']);
            assert("-"@ =~= seq!['-']);
        }
        let side_to_move = if spells(&parts[1], "w") {
            Color::White
        } else {
            Color::Black
        };
        let castling_rights = read_rights(&parts[2]);
        let ep_square = if spells(&parts[3], "-") {
            None
        } else {
            read_square(&parts[3])
        };
        let setup = Setup {
            side_to_move,
            castling_rights,
            ep_square,
            halfmove_clock,
            fullmove_number,
        };
        let pos = assemble(ctx, layout, setup);
        proof {
            no_phantoms(rs, 8);
            king_found(pos.pieces, placed, Color::White, 0);
            king_found(pos.pieces, placed, Color::Black, 0);
            assert(pos.king_square@ =~= fen_board(fen@).kings);
            assert(pos@ == fen_board(fen@));
            assert forall|c: Color, s: int|
                valid(s) implies (#[trigger] on(pos.occ[c.index()], s) <==> exists|pt: PieceType|
                #[trigger] placed.contains((s, c, pt))) by {
                if on(pos.occ[c.index()], s) {
                    let pt = choose|pt: PieceType|
                        pt != PieceType::NoPiece && on(
                            #[trigger] layout.pieces[c.index()][pt.index()],
                            s,
                        );
                    assert(placed.contains((s, c, pt)));
                }
                if exists|pt: PieceType| #[trigger] placed.contains((s, c, pt)) {
                    let pt = choose|pt: PieceType| #[trigger] placed.contains((s, c, pt));
                    assert(on(layout.pieces[c.index()][pt.index()], s));
                }
            }
        }
        Ok(pos)
    }
}

/// The lowest king of a colour, in the masks and among the pieces put down.
proof fn king_found(pieces: [[u64; 6]; 2], placed: Seq<Placement>, c: Color, s: int)
    requires
        holds_placed(pieces, placed),
        0 <= s <= 64,
        forall|t: int| 0 <= t < s ==> !on(#[trigger] pieces[c.index()][5], t),
    ensures
        lowest_king(placed, c, s) == lowest_or_64(pieces[c.index()][5]),
        0 <= lowest_king(placed, c, s) <= 64,
    decreases 64 - s,
{
    let mask = pieces[c.index()][5];
    assert(PieceType::King.index() == 5);
    if s >= 64 {
        assert forall|t: int| !on(mask, t) by {
            if on(mask, t) {
                assert(0 <= t < 64);
                assert(!on(pieces[c.index()][5], t));
            }
        }
        no_members(mask);
        axiom_u64_trailing_zeros(mask);
    } else {
        assert(on(pieces[c.index()][PieceType::King.index()], s) <==> placed.contains(
            (s, c, PieceType::King),
        ));
        if placed.contains((s, c, PieceType::King)) {
            assert(!on(0u64, s));
            lowest(mask);
            let z = lowest_or_64(mask);
            if z < s {
                assert(!on(pieces[c.index()][5], z));
            }
        } else {
            king_found(pieces, placed, c, s + 1);
        }
    }
}

/// No square was given two different pieces.
pub open spec fn undisputed(placed: Seq<Placement>) -> bool {
    forall|i: int|
        0 <= i < placed.len() ==> laid_out(placed)[(#[trigger] placed[i]).0] == Some(
            (placed[i].1, placed[i].2),
        )
}

/// What stands on a square was put there.
proof fn laid_out_placed(placed: Seq<Placement>, s: int)
    requires
        forall|i: int| 0 <= i < placed.len() ==> 0 <= (#[trigger] placed[i]).0 < 64,
        0 <= s < 64,
    ensures
        laid_out(placed).len() == 64,
        laid_out(placed)[s] matches Some((c, pt)) ==> placed.contains((s, c, pt)),
    decreases placed.len(),
{
    if placed.len() > 0 {
        let rest = placed.drop_last();
        assert forall|i: int| 0 <= i < rest.len() implies 0 <= (#[trigger] rest[i]).0 < 64 by {
            assert(rest[i] == placed[i]);
        }
        laid_out_placed(rest, s);
        assert(0 <= placed[placed.len() - 1].0 < 64);
        if let Some((c, pt)) = laid_out(placed)[s] {
            if placed.last().0 == s {
                assert(placed[placed.len() - 1] == (s, c, pt));
            } else {
                let i = choose|i: int| 0 <= i < rest.len() && rest[i] == (s, c, pt);
                assert(placed[i] == (s, c, pt));
            }
        }
    }
}

proof fn rank_in_range(s: Seq<char>, rank: int)
    requires
        0 <= rank < 8,
    ensures
        rank_pieces(s, rank) matches Ok((placed, f)) ==> f >= 0 && forall|i: int|
            0 <= i < placed.len() ==> 0 <= (#[trigger] placed[i]).0 < 64,
    decreases s.len(),
{
    if s.len() > 0 {
        rank_in_range(s.drop_last(), rank);
    }
}

proof fn ranks_in_range(ranks: Seq<Seq<char>>, n: int)
    requires
        n <= 8,
    ensures
        ranks_pieces(ranks, n) matches Ok(placed) ==> forall|i: int|
            0 <= i < placed.len() ==> 0 <= (#[trigger] placed[i]).0 < 64,
    decreases n,
{
    if n > 0 {
        ranks_in_range(ranks, n - 1);
        rank_in_range(ranks[n - 1], 8 - n);
    }
}

/// A position read from a text is in order exactly if its board makes sense
/// and no square was given two pieces.
pub proof fn fen_in_order(fen: Seq<char>, pos: Position)
    requires
        fen_problem(fen) is None,
        fen_describes(fen, pos),
        set_up(pos),
        pos.ctx.wf(),
    ensures
        pos.wf() <==> board_wf(fen_board(fen)) && undisputed(fen_pieces(words(fen))->Ok_0),
{
    let placed = fen_pieces(words(fen))->Ok_0;
    let ranks = fields(words(fen)[0], '/');
    let squares = laid_out(placed);
    ranks_in_range(ranks, 8);
    no_phantoms(ranks, 8);
    if pos.wf() {
        assert forall|i: int| 0 <= i < placed.len() implies squares[(#[trigger] placed[i]).0] == Some(
            (placed[i].1, placed[i].2),
        ) by {
            let (s, c, pt) = placed[i];
            assert(placed.contains((s, c, pt)));
            assert(on(pos.pieces[c.index()][pt.index()], s));
        }
    }
    if board_wf(fen_board(fen)) && undisputed(placed) {
        assert forall|c: Color, pt: PieceType, s: int|
            valid(s) && pt != PieceType::NoPiece implies (#[trigger] on(
            pos.pieces[c.index()][pt.index()],
            s,
        ) <==> squares[s] == Some((c, pt))) by {
            laid_out_placed(placed, s);
            if placed.contains((s, c, pt)) {
                let i = choose|i: int| 0 <= i < placed.len() && placed[i] == (s, c, pt);
                assert(squares[placed[i].0] == Some((placed[i].1, placed[i].2)));
            }
        }
        assert forall|c: Color, s: int|
            #[trigger] on(pos.occ[c.index()], s) <==> exists|pt: PieceType|
                pt != PieceType::NoPiece && on(#[trigger] pos.pieces[c.index()][pt.index()], s) by {
            if on(pos.occ[c.index()], s) {
                assert(valid(s));
                let pt = choose|pt: PieceType| #[trigger] placed.contains((s, c, pt));
                let i = choose|i: int| 0 <= i < placed.len() && placed[i] == (s, c, pt);
                assert(placed[i].2 != PieceType::NoPiece);
                assert(on(pos.pieces[c.index()][pt.index()], s));
            }
            if exists|pt: PieceType|
                pt != PieceType::NoPiece && on(#[trigger] pos.pieces[c.index()][pt.index()], s) {
                let pt = choose|pt: PieceType|
                    pt != PieceType::NoPiece && on(
                        #[trigger] pos.pieces[c.index()][pt.index()],
                        s,
                    );
                assert(valid(s));
                assert(placed.contains((s, c, pt)));
            }
        }
        assembled_wf(pos);
    }
}

/// Only real pieces are put down.
proof fn no_phantoms(ranks: Seq<Seq<char>>, n: int)
    ensures
        ranks_pieces(ranks, n) matches Ok(placed) ==> forall|i: int|
            0 <= i < placed.len() ==> (#[trigger] placed[i]).2 != PieceType::NoPiece,
    decreases n,
{
    if n > 0 {
        no_phantoms(ranks, n - 1);
        rank_no_phantoms(ranks[n - 1], 8 - n);
    }
}

proof fn rank_no_phantoms(s: Seq<char>, rank: int)
    ensures
        rank_pieces(s, rank) matches Ok((placed, _)) ==> forall|i: int|
            0 <= i < placed.len() ==> (#[trigger] placed[i]).2 != PieceType::NoPiece,
    decreases s.len(),
{
    if s.len() > 0 {
        rank_no_phantoms(s.drop_last(), rank);
    }
}

/// The message for an error.
pub open spec fn error_text(e: FenError) -> Seq<char> {
    match e {
        FenError::TooFewFields => "FEN needs at least 4 fields"@,
        FenError::WrongRankCount => "FEN board must have 8 ranks"@,
        FenError::BadPiece(c) => "bad piece char "@.push(c),
        FenError::OffBoard => "piece beyond the edge of the board"@,
    }
}

impl FenError {
    pub fn message(&self) -> (r: String)
        ensures
            r@ == error_text(*self),
    {
        match self {
            FenError::TooFewFields => "FEN needs at least 4 fields".to_string(),
            FenError::WrongRankCount => "FEN board must have 8 ranks".to_string(),
            FenError::BadPiece(c) => {
                let mut s = "bad piece char ".to_string();
                s.push(*c);
                s
            },
            FenError::OffBoard => "piece beyond the edge of the board".to_string(),
        }
    }
}

/// The letter of a piece: capital for white.
pub open spec fn piece_letter(c: Color, pt: PieceType) -> char {
    match (c, pt) {
        (Color::White, PieceType::Pawn) => 'P',
        (Color::White, PieceType::Knight) => 'N',
        (Color::White, PieceType::Bishop) => 'B',
        (Color::White, PieceType::Rook) => 'R',
        (Color::White, PieceType::Queen) => 'Q',
        (Color::White, PieceType::King) => 'K',
        (Color::Black, PieceType::Pawn) => 'p',
        (Color::Black, PieceType::Knight) => 'n',
        (Color::Black, PieceType::Bishop) => 'b',
        (Color::Black, PieceType::Rook) => 'r',
        (Color::Black, PieceType::Queen) => 'q',
        (Color::Black, PieceType::King) => 'k',
        (_, PieceType::NoPiece) => '?',
    }
}

fn letter_for(c: Color, pt: PieceType) -> (r: char)
    ensures
        r == piece_letter(c, pt),
{
    let white = c == Color::White;
    match pt {
        PieceType::Pawn => if white {
            'P'
        } else {
            'p'
        },
        PieceType::Knight => if white {
            'N'
        } else {
            'n'
        },
        PieceType::Bishop => if white {
            'B'
        } else {
            'b'
        },
        PieceType::Rook => if white {
            'R'
        } else {
            'r'
        },
        PieceType::Queen => if white {
            'Q'
        } else {
            'q'
        },
        PieceType::King => if white {
            'K'
        } else {
            'k'
        },
        PieceType::NoPiece => '?',
    }
}

/// A number of empty squares; nothing for none.
pub open spec fn gap_text(run: int) -> Seq<char> {
    if run > 0 {
        seq![digit_of(run - 1)]
    } else {
        seq![]
    }
}

/// The text of the first `n` squares of a rank, without the empty squares at
/// its end, and how many those are.
pub open spec fn rank_text(squares: Squares, rank: int, n: int) -> (Seq<char>, int)
    decreases n,
{
    if n <= 0 {
        (seq![], 0)
    } else {
        let (text, run) = rank_text(squares, rank, n - 1);
        match squares[at(rank, n - 1)] {
            None => (text, run + 1),
            Some((c, pt)) => ((text + gap_text(run)).push(piece_letter(c, pt)), 0),
        }
    }
}

/// The text of a whole rank.
pub open spec fn full_rank_text(squares: Squares, rank: int) -> Seq<char> {
    rank_text(squares, rank, 8).0 + gap_text(rank_text(squares, rank, 8).1)
}

/// The text of the top `n` ranks, separated by slashes.
pub open spec fn placement_text(squares: Squares, n: int) -> Seq<char>
    decreases n,
{
    if n <= 0 {
        seq![]
    } else if n == 1 {
        full_rank_text(squares, 7)
    } else {
        placement_text(squares, n - 1).push('/') + full_rank_text(squares, 8 - n)
    }
}

pub open spec fn letter_if(condition: bool, c: char) -> Seq<char> {
    if condition {
        seq![c]
    } else {
        seq![]
    }
}

/// The castling rights in letters, or a dash for none.
pub open spec fn rights_text(rights: u8) -> Seq<char> {
    let named = letter_if(rights & 1 != 0, 'K') + letter_if(rights & 2 != 0, 'Q') + letter_if(
        rights & 4 != 0,
        'k',
    ) + letter_if(rights & 8 != 0, 'q');
    if named.len() == 0 {
        seq!['-']
    } else {
        named
    }
}

pub open spec fn ep_text(ep: Option<u8>) -> Seq<char> {
    match ep {
        None => seq!['-'],
        Some(e) => square_name(e as int),
    }
}

pub open spec fn side_letter(side: Color) -> char {
    if side == Color::White {
        'w'
    } else {
        'b'
    }
}

/// The first four fields of the position text.
pub open spec fn book_text(b: Board) -> Seq<char> {
    (placement_text(b.squares, 8).push(' ').push(side_letter(b.side)).push(' ') + rights_text(
        b.castling,
    )).push(' ') + ep_text(b.ep)
}

fn push_gap(s: &mut String, run: u8)
    requires
        run <= 8,
    ensures
        final(s)@ == old(s)@ + gap_text(run as int),
{
    if run > 0 {
        s.push(rank_digit(run - 1));
        proof {
            assert(s@ =~= old(s)@ + gap_text(run as int));
        }
    } else {
        proof {
            assert(s@ =~= old(s)@ + gap_text(run as int));
        }
    }
}

fn push_if(s: &mut String, condition: bool, c: char)
    ensures
        final(s)@ == old(s)@ + letter_if(condition, c),
{
    if condition {
        s.push(c);
    }
    proof {
        assert(s@ =~= old(s)@ + letter_if(condition, c));
    }
}

fn push_rights(s: &mut String, rights: u8)
    ensures
        final(s)@ == old(s)@ + rights_text(rights),
{
    let ghost head = s@;
    push_if(s, rights & CR_WK != 0, 'K');
    push_if(s, rights & CR_WQ != 0, 'Q');
    push_if(s, rights & CR_BK != 0, 'k');
    push_if(s, rights & CR_BQ != 0, 'q');
    let none = rights & CR_WK == 0 && rights & CR_WQ == 0 && rights & CR_BK == 0 && rights & CR_BQ
        == 0;
    proof {
        let named = letter_if(rights & 1 != 0, 'K') + letter_if(rights & 2 != 0, 'Q') + letter_if(
            rights & 4 != 0,
            'k',
        ) + letter_if(rights & 8 != 0, 'q');
        assert(s@ =~= head + named);
        assert(none <==> named.len() == 0);
    }
    push_if(s, none, '-');
    proof {
        assert(s@ =~= head + rights_text(rights));
    }
}

fn push_ep(s: &mut String, ep: Option<u8>)
    ensures
        final(s)@ == old(s)@ + ep_text(ep),
{
    match ep {
        None => {
            s.push('-');
        },
        Some(epsq) => {
            s.push(file_letter(file_of(epsq)));
            s.push(rank_digit(rank_of(epsq)));
        },
    }
    proof {
        assert(s@ =~= old(s)@ + ep_text(ep));
    }
}

impl<'a> Position<'a> {
    /// Appends the text of a rank.
    fn push_rank(&self, s: &mut String, rank: u8)
        requires
            rank < 8,
        ensures
            final(s)@ == old(s)@ + full_rank_text(self.mailbox@, rank as int),
    {
        let ghost start = s@;
        let mut run: u8 = 0;
        let mut file: u8 = 0;
        proof {
            assert(s@ =~= start + rank_text(self.mailbox@, rank as int, 0).0);
        }
        while file < 8
            invariant
                file <= 8,
                rank < 8,
                run <= file,
                s@ == start + rank_text(self.mailbox@, rank as int, file as int).0,
                run == rank_text(self.mailbox@, rank as int, file as int).1,
            decreases 8 - file,
        {
            let ghost before = rank_text(self.mailbox@, rank as int, file as int).0;
            match self.mailbox[sq(rank, file) as usize] {
                None => {
                    run += 1;
                },
                Some((color, pt)) => {
                    push_gap(s, run);
                    s.push(letter_for(color, pt));
                    proof {
                        assert(s@ =~= start + (before + gap_text(run as int)).push(
                            piece_letter(color, pt),
                        ));
                    }
                    run = 0;
                },
            }
            file += 1;
        }
        push_gap(s, run);
        proof {
            assert(s@ =~= start + full_rank_text(self.mailbox@, rank as int));
        }
    }

    /// The first four fields of the position text, by which an opening book
    /// knows a position.
    pub fn book_key(&self) -> (r: String)
        ensures
            r@ == book_text(self@),
    {
        let mut s = String::new();
        let mut n: u8 = 0;
        while n < 8
            invariant
                n <= 8,
                s@ == placement_text(self.mailbox@, n as int),
            decreases 8 - n,
        {
            if n > 0 {
                s.push('/');
            }
            let ghost before = s@;
            self.push_rank(&mut s, 7 - n);
            proof {
                if n == 0 {
                    assert(s@ =~= full_rank_text(self.mailbox@, 7));
                }
            }
            n += 1;
        }
        s.push(' ');
        s.push(
            if self.side_to_move == Color::White {
                'w'
            } else {
                'b'
            },
        );
        s.push(' ');
        push_rights(&mut s, self.castling_rights);
        s.push(' ');
        push_ep(&mut s, self.ep_square);
        s
    }
}

/// The masks of the pieces on the squares.
pub(crate) fn masks_of(mailbox: &[Option<(Color, PieceType)>; 64]) -> (r: [[u64; 6]; 2])
    ensures
        masks_agree(r, mailbox@),
{
    let mut pieces: [[u64; 6]; 2] = [[0u64; 6]; 2];
    let mut s: u8 = 0;
    while s < 64
        invariant
            s <= 64,
            forall|c: Color, pt: PieceType, t: int|
                valid(t) && pt != PieceType::NoPiece ==> (#[trigger] on(
                    pieces[c.index()][pt.index()],
                    t,
                ) <==> t < s && mailbox@[t] == Some((c, pt))),
        decreases 64 - s,
    {
        if let Some((color, kind)) = mailbox[s as usize] {
            if kind != PieceType::NoPiece {
                let ghost before = pieces;
                pieces[color.idx()][kind.idx()] = pieces[color.idx()][kind.idx()] | bit(s);
                proof {
                    assert forall|c: Color, pt: PieceType, t: int|
                        valid(t) && pt != PieceType::NoPiece implies (#[trigger] on(
                        pieces[c.index()][pt.index()],
                        t,
                    ) <==> t < s + 1 && mailbox@[t] == Some((c, pt))) by {
                        assert(on(before[c.index()][pt.index()], t) <==> t < s && mailbox@[t]
                            == Some((c, pt)));
                        assert((c.index() == color.index() && pt.index() == kind.index()) <==> (c
                            == color && pt == kind));
                    }
                }
            }
        }
        s += 1;
    }
    pieces
}

/// What stands on each file of the first and the last rank at the start.
pub open spec fn start_rank(f: int) -> PieceType {
    if f == 0 || f == 7 {
        PieceType::Rook
    } else if f == 1 || f == 6 {
        PieceType::Knight
    } else if f == 2 || f == 5 {
        PieceType::Bishop
    } else if f == 3 {
        PieceType::Queen
    } else {
        PieceType::King
    }
}

pub open spec fn start_square(s: int) -> Option<(Color, PieceType)> {
    if rank(s) == 0 {
        Some((Color::White, start_rank(file(s))))
    } else if rank(s) == 1 {
        Some((Color::White, PieceType::Pawn))
    } else if rank(s) == 6 {
        Some((Color::Black, PieceType::Pawn))
    } else if rank(s) == 7 {
        Some((Color::Black, start_rank(file(s))))
    } else {
        None
    }
}

/// The initial position of chess.
pub open spec fn start_board() -> Board {
    Board {
        squares: Seq::new(64, |s: int| start_square(s)),
        side: Color::White,
        castling: 15,
        ep: None,
        halfmove: 0,
        fullmove: 1,
        kings: seq![4u8, 60u8],
    }
}

fn start_piece(s: u8) -> (r: Option<(Color, PieceType)>)
    ensures
        r == start_square(s as int),
{
    let f = file_of(s);
    let back = if f == 0 || f == 7 {
        PieceType::Rook
    } else if f == 1 || f == 6 {
        PieceType::Knight
    } else if f == 2 || f == 5 {
        PieceType::Bishop
    } else if f == 3 {
        PieceType::Queen
    } else {
        PieceType::King
    };
    match rank_of(s) {
        0 => Some((Color::White, back)),
        1 => Some((Color::White, PieceType::Pawn)),
        6 => Some((Color::Black, PieceType::Pawn)),
        7 => Some((Color::Black, back)),
        _ => None,
    }
}

/// A freshly assembled position whose masks and kings are right is in order.
proof fn assembled_wf(pos: Position)
    requires
        pos.ctx.wf(),
        set_up(pos),
        board_wf(pos@),
        masks_agree(pos.pieces, pos.mailbox@),
        forall|c: Color, s: int|
            #[trigger] on(pos.occ[c.index()], s) <==> exists|pt: PieceType|
                pt != PieceType::NoPiece && on(#[trigger] pos.pieces[c.index()][pt.index()], s),
        forall|s: int| #[trigger] on(pos.occ_all, s) <==> on(pos.occ[0], s) || on(pos.occ[1], s),
    ensures
        pos.wf(),
{
    let squares = pos.mailbox@;
    assert(real_pieces(squares)) by {
        assert forall|s: int| valid(s) implies (#[trigger] squares[s] matches Some((c, pt)) ==> pt
            != PieceType::NoPiece) by {
            assert(pos@.squares[s] == squares[s]);
        }
    }
    assert forall|c: Color, s: int| valid(s) implies (#[trigger] on(pos.occ[c.index()], s) <==> (
    squares[s] matches Some((d, _)) && d == c)) by {
        if on(pos.occ[c.index()], s) {
            let pt = choose|pt: PieceType|
                pt != PieceType::NoPiece && on(#[trigger] pos.pieces[c.index()][pt.index()], s);
            assert(squares[s] == Some((c, pt)));
        }
        if let Some((d, pt)) = squares[s] {
            if d == c {
                assert(on(pos.pieces[c.index()][pt.index()], s));
            }
        }
    }
    assert forall|s: int| valid(s) implies (#[trigger] on(pos.occ_all, s) <==> squares[s] is Some) by {
        assert(on(pos.occ[Color::White.index()], s) <==> (squares[s] matches Some((d, _)) && d
            == Color::White));
        assert(on(pos.occ[Color::Black.index()], s) <==> (squares[s] matches Some((d, _)) && d
            == Color::Black));
    }
    masks_hash_agrees(pos.pieces, squares, 64);
    seen_kings(pos@);
    assert(king_at_home(pos@, Color::White) && king_at_home(pos@, Color::Black));
    if let Some(ev) = pos.ctx.nnue {
        assert forall|p: int|
            0 <= p < 2 && !#[trigger] pos.nnue_dirty@[p] implies pos.nnue_accum@[p].accumulates(
            ev.feature_transformer,
            board_features(squares, p, pos.king_square@[p] as int),
        ) by {
            assert(p == 0 || p == 1);
            let a = pos.nnue_accum@[p];
        }
    }
}

impl<'a> Position<'a> {
    /// The initial position of chess.
    pub fn startpos(ctx: &'a Context) -> (r: Position<'a>)
        requires
            ctx.wf(),
        ensures
            r.wf(),
            r@ == start_board(),
            playable(r@),
            r.ctx == ctx,
            r.undo_stack@.len() == 0,
    {
        let mut mailbox: [Option<(Color, PieceType)>; 64] = [None; 64];
        let mut s: u8 = 0;
        while s < 64
            invariant
                s <= 64,
                forall|t: int| 0 <= t < s ==> #[trigger] mailbox@[t] == start_square(t),
            decreases 64 - s,
        {
            mailbox[s as usize] = start_piece(s);
            s += 1;
        }
        let pieces = masks_of(&mailbox);
        let setup = Setup {
            side_to_move: Color::White,
            castling_rights: 15,
            ep_square: None,
            halfmove_clock: 0,
            fullmove_number: 1,
        };
        let pos = assemble(ctx, Layout { pieces, mailbox }, setup);
        proof {
            let b = start_board();
            assert(pos.mailbox@ =~= b.squares);
            assert(b.squares[4] == Some((Color::White, PieceType::King)));
            assert(b.squares[60] == Some((Color::Black, PieceType::King)));
            only_member(pos.pieces[Color::White.index()][PieceType::King.index()], 4);
            only_member(pos.pieces[Color::Black.index()][PieceType::King.index()], 60);
            assert(pos.king_square@ =~= b.kings);
            assert(pos@ == b);
            assert(king_at_home(b, Color::White) && king_at_home(b, Color::Black));
            assert(board_wf(b));
            assembled_wf(pos);
            start_board_playable();
        }
        pos
    }
}

/// In the initial position nobody is in check: the pawns stand in front.
pub proof fn start_board_playable()
    ensures
        playable(start_board()),
{
    let b = start_board();
    assert(b.squares[4] == Some((Color::White, PieceType::King)));
    assert(b.squares[60] == Some((Color::Black, PieceType::King)));
    assert(king_at_home(b, Color::White) && king_at_home(b, Color::Black));
    let occ = occupied(b.squares);
    if in_check(b, Color::Black) {
        let s = choose|s: int| #[trigger] attacks_from(b.squares, Color::White, s, 60, occ);
        let pt = piece_on(b.squares, s);
        attack_forms(pt, Color::White, s, 60, occ);
        assert(rank(s) == 0 || rank(s) == 1);
        assert(!leaps(pt, Color::White, s, 60));
        let d = choose|d: int| #[trigger] aims(pt, d, s, 60, occ);
        reveal(on_ray);
        assert(occ[51] && occ[52] && occ[53]);
        if d == 1 {
            assert(on_ray(d, 60, 52) && on_ray(d, 52, s));
        } else if d == 6 {
            assert(on_ray(d, 60, 53) && on_ray(d, 53, s));
        } else if d == 7 {
            assert(on_ray(d, 60, 51) && on_ray(d, 51, s));
        }
    }
}

/// The lowest member of a mask with one member is that member.
proof fn only_member(bb: u64, k: int)
    requires
        on(bb, k),
        forall|s: int| valid(s) && #[trigger] on(bb, s) ==> s == k,
    ensures
        lowest_or_64(bb) == k,
{
    if bb == 0 {
        assert(!on(0u64, k));
    }
    lowest(bb);
}

} // verus!
