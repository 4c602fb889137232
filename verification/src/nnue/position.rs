//! The part of a position that the network sees: what stands on each square,
//! whose turn it is, and where the kings are.
//!
//! Squares count from a1 = 0 to h8 = 63. Pieces are numbers: white pawn to king
//! are 1 to 6, black pawn to king are 9 to 14, and 0 is an empty square.
use vstd::prelude::*;
use crate::text::{
    digit_value, fields, is_digit, letters, spells, split_fields, split_words, texts, words,
};

verus! {

pub type Square = u32;

pub type Piece = u32;

pub type Color = u32;

pub const WHITE: Color = 0;

pub const BLACK: Color = 1;

pub const NO_PIECE: Piece = 0;

pub const W_PAWN: Piece = 1;

pub const W_KNIGHT: Piece = 2;

pub const W_BISHOP: Piece = 3;

pub const W_ROOK: Piece = 4;

pub const W_QUEEN: Piece = 5;

pub const W_KING: Piece = 6;

pub const B_PAWN: Piece = 9;

pub const B_KNIGHT: Piece = 10;

pub const B_BISHOP: Piece = 11;

pub const B_ROOK: Piece = 12;

pub const B_QUEEN: Piece = 13;

pub const B_KING: Piece = 14;

pub const SQUARE_NB: usize = 64;

#[inline]
pub fn make_square(file: u32, rank: u32) -> (r: Square)
    requires
        file + 8 * rank <= u32::MAX,
    ensures
        r == file + 8 * rank,
{
    file + 8 * rank
}

/// Why a position text was refused.
#[derive(Copy, Clone, Debug, PartialEq, Eq, Structural)]
pub enum FenError {
    TooFewFields,
    WrongRankCount,
    RankOverflow,
    BadPiece(char),
    BadRankLength,
    BadSide,
    MissingKing,
}

/// The piece that a letter stands for.
pub open spec fn piece_of_letter(c: char) -> Option<Piece> {
    match c {
        'P' => Some(W_PAWN),
        'N' => Some(W_KNIGHT),
        'B' => Some(W_BISHOP),
        'R' => Some(W_ROOK),
        'Q' => Some(W_QUEEN),
        'K' => Some(W_KING),
        'p' => Some(B_PAWN),
        'n' => Some(B_KNIGHT),
        'b' => Some(B_BISHOP),
        'r' => Some(B_ROOK),
        'q' => Some(B_QUEEN),
        'k' => Some(B_KING),
        _ => None,
    }
}

fn piece_from_char(ch: char) -> (r: Option<Piece>)
    ensures
        r == piece_of_letter(ch),
{
    match ch {
        'P' => Some(W_PAWN),
        'N' => Some(W_KNIGHT),
        'B' => Some(W_BISHOP),
        'R' => Some(W_ROOK),
        'Q' => Some(W_QUEEN),
        'K' => Some(W_KING),
        'p' => Some(B_PAWN),
        'n' => Some(B_KNIGHT),
        'b' => Some(B_BISHOP),
        'r' => Some(B_ROOK),
        'q' => Some(B_QUEEN),
        'k' => Some(B_KING),
        _ => None,
    }
}

/// The squares that a rank of a position text describes, from file a on: a
/// digit is that many empty squares, a letter is a piece.
pub open spec fn rank_cells(s: Seq<char>) -> Result<Seq<Piece>, FenError>
    decreases s.len(),
{
    if s.len() == 0 {
        Ok(seq![])
    } else {
        match rank_cells(s.drop_last()) {
            Err(e) => Err(e),
            Ok(cells) => if is_digit(s.last()) {
                Ok(cells + Seq::new(digit_value(s.last()) as nat, |i: int| NO_PIECE))
            } else if cells.len() >= 8 {
                Err(FenError::RankOverflow)
            } else {
                match piece_of_letter(s.last()) {
                    None => Err(FenError::BadPiece(s.last())),
                    Some(p) => Ok(cells.push(p)),
                }
            },
        }
    }
}

/// What is wrong with one rank.
pub open spec fn rank_problem(s: Seq<char>) -> Option<FenError> {
    match rank_cells(s) {
        Err(e) => Some(e),
        Ok(cells) => if cells.len() != 8 {
            Some(FenError::BadRankLength)
        } else {
            None
        },
    }
}

/// The first problem among the first `n` ranks.
pub open spec fn ranks_problem(ranks: Seq<Seq<char>>, n: int) -> Option<FenError>
    decreases n,
{
    if n <= 0 {
        None
    } else {
        match ranks_problem(ranks, n - 1) {
            Some(e) => Some(e),
            None => rank_problem(ranks[n - 1]),
        }
    }
}

/// The board that eight well-formed ranks describe, eighth rank first.
pub open spec fn board_of(ranks: Seq<Seq<char>>) -> Seq<Piece> {
    Seq::new(64, |s: int| rank_cells(ranks[7 - s / 8])->Ok_0[s % 8])
}

/// The last square below `n` with the given piece.
pub open spec fn last_square(board: Seq<Piece>, piece: Piece, n: int) -> Option<int>
    decreases n,
{
    if n <= 0 {
        None
    } else if board[n - 1] == piece {
        Some(n - 1)
    } else {
        last_square(board, piece, n - 1)
    }
}

/// The first thing that is wrong with a position text.
pub open spec fn fen_problem(fen: Seq<char>) -> Option<FenError> {
    let parts = words(fen);
    if parts.len() < 2 {
        Some(FenError::TooFewFields)
    } else {
        let ranks = fields(parts[0], '/');
        if ranks.len() != 8 {
            Some(FenError::WrongRankCount)
        } else {
            match ranks_problem(ranks, 8) {
                Some(e) => Some(e),
                None => if parts[1] != seq!['w'] && parts[1] != seq!['b'] {
                    Some(FenError::BadSide)
                } else if last_square(board_of(ranks), W_KING, 64) is None || last_square(
                    board_of(ranks),
                    B_KING,
                    64,
                ) is None {
                    Some(FenError::MissingKing)
                } else {
                    None
                },
            }
        }
    }
}

/// `p` is the position that a well-formed text describes.
pub open spec fn fen_describes(fen: Seq<char>, p: Position) -> bool {
    let parts = words(fen);
    let board = board_of(fields(parts[0], '/'));
    &&& p.board@ == board
    &&& p.side_to_move == if parts[1] == seq!['w'] {
        WHITE
    } else {
        BLACK
    }
    &&& last_square(board, W_KING, 64) == Some(p.king_square@[0] as int)
    &&& last_square(board, B_KING, 64) == Some(p.king_square@[1] as int)
}

pub struct Position {
    pub board: [Piece; 64],
    pub side_to_move: Color,
    pub king_square: [Square; 2],
}

/// The occupied squares below `n`, in ascending order.
pub open spec fn taken_squares(board: Seq<Piece>, n: int) -> Seq<Square>
    decreases n,
{
    if n <= 0 {
        seq![]
    } else if board[n - 1] != NO_PIECE {
        taken_squares(board, n - 1).push((n - 1) as u32)
    } else {
        taken_squares(board, n - 1)
    }
}

impl Position {
    /// The piece numbers and king squares are in range.
    pub open spec fn wf(self) -> bool {
        &&& self.side_to_move < 2
        &&& self.king_square@[0] < 64
        &&& self.king_square@[1] < 64
        &&& forall|s: int| 0 <= s < 64 ==> #[trigger] self.board@[s] < 16
    }

    pub fn piece_on(&self, s: Square) -> (r: Piece)
        requires
            s < 64,
        ensures
            r == self.board@[s as int],
    {
        self.board[s as usize]
    }

    pub fn king_square(&self, c: Color) -> (r: Square)
        requires
            c < 2,
        ensures
            r == self.king_square@[c as int],
    {
        self.king_square[c as usize]
    }

    /// The occupied squares in ascending order.
    pub fn occupied_squares(&self) -> (r: Vec<Square>)
        ensures
            r@ == taken_squares(self.board@, 64),
    {
        let mut out: Vec<Square> = Vec::new();
        let mut s: u32 = 0;
        while s < 64
            invariant
                s <= 64,
                out@ == taken_squares(self.board@, s as int),
            decreases 64 - s,
        {
            if self.board[s as usize] != NO_PIECE {
                out.push(s);
            }
            s += 1;
        }
        out
    }

    pub fn count_all_pieces(&self) -> (r: u32)
        ensures
            r == taken_squares(self.board@, 64).len(),
            r <= 64,
    {
        let mut n: u32 = 0;
        let mut s: u32 = 0;
        while s < 64
            invariant
                s <= 64,
                n <= s,
                n == taken_squares(self.board@, s as int).len(),
            decreases 64 - s,
        {
            if self.board[s as usize] != NO_PIECE {
                n += 1;
            }
            s += 1;
        }
        n
    }

    /// Reads the board and the side to move of a position text. Further fields
    /// are accepted and left unread.
    pub fn from_fen(fen: &str) -> (r: Result<Position, FenError>)
        ensures
            match fen_problem(fen@) {
                Some(e) => r matches Err(f) && f == e,
                None => r matches Ok(p) && p.wf() && fen_describes(fen@, p),
            },
    {
        let text = letters(fen);
        let parts = split_words(&text);
        proof {
            assert(parts@.len() == words(fen@).len());
        }
        if parts.len() < 2 {
            return Err(FenError::TooFewFields);
        }
        let ranks = split_fields(&parts[0], '/');
        let ghost rs = fields(words(fen@)[0], '/');
        proof {
            assert(texts(parts@)[0] == parts@[0]@);
            assert(texts(parts@)[1] == parts@[1]@);
            assert(texts(ranks@) == rs);
            assert(ranks@.len() == rs.len());
        }
        if ranks.len() != 8 {
            return Err(FenError::WrongRankCount);
        }
        let mut board: [Piece; 64] = [NO_PIECE; 64];
        let mut i: usize = 0;
        while i < 8
            invariant
                i <= 8,
                ranks@.len() == 8,
                texts(ranks@) == rs,
                rs == fields(words(fen@)[0], '/'),
                rs.len() == 8,
                words(fen@).len() >= 2,
                ranks_problem(rs, i as int) is None,
                forall|s: int| 8 * (8 - i) <= s < 64 ==> #[trigger] board@[s] == board_of(rs)[s],
                forall|s: int| 0 <= s < 64 ==> #[trigger] board@[s] < 16,
            decreases 8 - i,
        {
            proof {
                assert(texts(ranks@)[i as int] == ranks@[i as int]@);
                ranks_problem_first(rs, i + 1, 8);
            }
            match read_rank(&ranks[i]) {
                Err(e) => {
                    return Err(e);
                },
                Ok(cells) => {
                    let base: usize = 8 * (7 - i);
                    let ghost before = board@;
                    let mut f: usize = 0;
                    while f < 8
                        invariant
                            f <= 8,
                            i < 8,
                            base == 8 * (7 - i),
                            cells@.len() == 8,
                            forall|g: int| 0 <= g < 8 ==> #[trigger] cells@[g] < 16,
                            rank_cells(rs[i as int]) == Ok::<Seq<Piece>, FenError>(cells@),
                            forall|g: int| 0 <= g < f ==> #[trigger] board@[base + g] == cells@[g],
                            forall|s: int| base + 8 <= s < 64 ==> board@[s] == before[s],
                            forall|s: int| 0 <= s < 64 ==> #[trigger] board@[s] < 16,
                        decreases 8 - f,
                    {
                        board[base + f] = cells[f];
                        f += 1;
                    }
                    proof {
                        assert forall|s: int| 8 * (7 - i) <= s < 64 implies #[trigger] board@[s]
                            == board_of(rs)[s] by {
                            if s < base + 8 {
                                assert(board@[base + (s - base)] == cells@[s - base]);
                                assert(s / 8 == 7 - i && s % 8 == s - base);
                            } else {
                                assert(before[s] == board_of(rs)[s]);
                            }
                        }
                    }
                },
            }
            i += 1;
        }
        proof {
            assert(board@ =~= board_of(rs));
            reveal_strlit("w");
            reveal_strlit("b");
            assert("w"@ =~= seq!['w']);
            assert("b"@ =~= seq!['b']);
        }
        let side_to_move: Color = if spells(&parts[1], "w") {
            WHITE
        } else if spells(&parts[1], "b") {
            BLACK
        } else {
            return Err(FenError::BadSide);
        };
        let white = find_last(&board, W_KING);
        let black = find_last(&board, B_KING);
        match (white, black) {
            (Some(w), Some(b)) => {
                let king_square: [Square; 2] = [w, b];
                Ok(Position { board, side_to_move, king_square })
            },
            _ => Err(FenError::MissingKing),
        }
    }
}

proof fn ranks_problem_first(ranks: Seq<Seq<char>>, k: int, n: int)
    requires
        k <= n,
    ensures
        ranks_problem(ranks, k) matches Some(e) ==> ranks_problem(ranks, n) == Some(e),
    decreases n - k,
{
    if k < n {
        ranks_problem_first(ranks, k, n - 1);
    }
}

proof fn rank_cells_error(s: Seq<char>, k: int)
    requires
        0 <= k <= s.len(),
    ensures
        rank_cells(s.take(k)) matches Err(e) ==> rank_cells(s) == Err::<Seq<Piece>, FenError>(e),
    decreases s.len() - k,
{
    if k < s.len() {
        assert(s.take(k + 1).drop_last() =~= s.take(k));
        rank_cells_error(s, k + 1);
    } else {
        assert(s.take(k) =~= s);
    }
}

/// The eight squares of a rank.
fn read_rank(s: &Vec<char>) -> (r: Result<Vec<Piece>, FenError>)
    ensures
        match rank_problem(s@) {
            Some(e) => r matches Err(f) && f == e,
            None => r matches Ok(v) && rank_cells(s@) == Ok::<Seq<Piece>, FenError>(v@) && v@.len()
                == 8 && forall|i: int| 0 <= i < 8 ==> #[trigger] v@[i] < 16,
        },
{
    let mut cells: Vec<Piece> = Vec::new();
    let mut over = false;
    let mut i: usize = 0;
    proof {
        assert(s@.take(0) =~= seq![]);
        assert(rank_cells(s@.take(0)) == Ok::<Seq<Piece>, FenError>(cells@)) by {
            assert(cells@ =~= seq![]);
        }
    }
    while i < s.len()
        invariant
            i <= s.len(),
            over ==> (rank_cells(s@.take(i as int)) matches Ok(c) && c.len() > 8),
            !over ==> rank_cells(s@.take(i as int)) == Ok::<Seq<Piece>, FenError>(cells@)
                && cells@.len() <= 8,
            forall|j: int| 0 <= j < cells@.len() ==> #[trigger] cells@[j] < 16,
        decreases s.len() - i,
    {
        let c = s[i];
        proof {
            assert(s@.take(i + 1).drop_last() =~= s@.take(i as int));
            rank_cells_error(s@, i + 1);
        }
        if '0' <= c && c <= '9' {
            let d: u32 = c as u32 - '0' as u32;
            let ghost before = cells@;
            let ghost was_over = over;
            let mut k: u32 = 0;
            while k < d && !over
                invariant
                    k <= d,
                    !over ==> cells@ =~= before + Seq::new(k as nat, |i: int| NO_PIECE)
                        && cells@.len() <= 8,
                    was_over ==> over,
                    over ==> was_over || before.len() + d > 8,
                    forall|j: int| 0 <= j < cells@.len() ==> #[trigger] cells@[j] < 16,
                decreases d - k,
            {
                if cells.len() >= 8 {
                    over = true;
                } else {
                    cells.push(NO_PIECE);
                }
                k += 1;
            }
        } else {
            if over || cells.len() >= 8 {
                return Err(FenError::RankOverflow);
            }
            match piece_from_char(c) {
                None => {
                    return Err(FenError::BadPiece(c));
                },
                Some(p) => {
                    cells.push(p);
                },
            }
        }
        i += 1;
    }
    proof {
        assert(s@.take(i as int) =~= s@);
    }
    if over || cells.len() != 8 {
        return Err(FenError::BadRankLength);
    }
    Ok(cells)
}

/// The last square that holds the given piece.
fn find_last(board: &[Piece; 64], piece: Piece) -> (r: Option<Square>)
    ensures
        match last_square(board@, piece, 64) {
            Some(s) => r == Some(s as u32) && 0 <= s < 64,
            None => r is None,
        },
{
    let mut found: Option<Square> = None;
    let mut s: u32 = 0;
    while s < 64
        invariant
            s <= 64,
            match last_square(board@, piece, s as int) {
                Some(t) => found == Some(t as u32) && 0 <= t < s,
                None => found is None,
            },
        decreases 64 - s,
    {
        if board[s as usize] == piece {
            found = Some(s);
        }
        s += 1;
    }
    found
}

} // verus!
