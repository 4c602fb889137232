//! A position: bitboards and mailbox, the state that is not on the board, the
//! hash key and the network accumulators, all kept in step by `make_move` and
//! `unmake_move`.
use vstd::prelude::*;
use crate::bitboard::{bit, file_of, rank_of, sq};
use crate::bits::{group_bits, lowest, on, same_members};
use crate::context::Context;
use crate::eval::to_nnue;
use crate::geometry::valid;
use crate::legality::{after_wf, before_after};
use crate::moves::MoveParts;
use crate::nnue::accum::{Accumulator, apply_feature, compute_accumulator, follows_board};
use crate::nnue::features::{active_features, make_index};
use crate::nnue::inference::accumulator_unique;
use crate::nnue::position::{
    NO_PIECE, W_BISHOP, W_KING, W_KNIGHT, W_PAWN, W_QUEEN, W_ROOK, last_square,
};
use crate::rules::{
    Board, Squares, after, after_null, before, board_wf, fits, king_at_home, rights_after,
    squares_after,
};
use crate::zobrist::{
    board_hash, castling_key, castling_number, color_at, ep_file_key, ep_hash, masks_agree,
    piece_key, real_pieces, side_hash, side_key, side_number, square_number, squares_hash,
    squares_hash_update, state_hash, xor_swap,
};
pub use crate::moves::{MAX_MOVES, Move, MoveFlag, MoveList};
pub use crate::pieces::{Color, PIECE_TYPES, PieceType, piece_value};

verus! {

broadcast use group_bits;

pub const CR_WK: u8 = 1;

pub const CR_WQ: u8 = 2;

pub const CR_BK: u8 = 4;

pub const CR_BQ: u8 = 8;

/// What `unmake_move` cannot work out from the move.
#[derive(Clone, Copy, Debug, PartialEq, Eq, Structural)]
pub struct Undo {
    pub captured: PieceType,
    pub captured_color: Color,
    pub prev_castling: u8,
    pub prev_ep: Option<u8>,
    pub prev_halfmove: u16,
    pub prev_zobrist: u64,
}

pub struct Position<'a> {
    pub ctx: &'a Context,
    /// Masks by colour and piece type.
    pub pieces: [[u64; 6]; 2],
    /// Masks by colour.
    pub occ: [u64; 2],
    pub occ_all: u64,
    pub mailbox: [Option<(Color, PieceType)>; 64],
    pub side_to_move: Color,
    pub castling_rights: u8,
    pub ep_square: Option<u8>,
    pub halfmove_clock: u16,
    pub fullmove_number: u16,
    pub king_square: [u8; 2],
    pub zobrist_key: u64,
    pub undo_stack: Vec<Undo>,
    /// One accumulator for each perspective; without meaning where no network
    /// is loaded.
    pub nnue_accum: [Accumulator; 2],
    /// The perspective's king has moved and its accumulator has to be computed
    /// afresh.
    pub nnue_dirty: [bool; 2],
}

/// The number by which the network knows what stands on a square.
pub open spec fn code_of(x: Option<(Color, PieceType)>) -> u32 {
    match x {
        Some((c, pt)) => if pt == PieceType::NoPiece {
            0
        } else {
            (1 + pt.index() + 8 * c.index()) as u32
        },
        None => 0,
    }
}

pub open spec fn codes(squares: Squares) -> Seq<u32> {
    Seq::new(64, |s: int| code_of(squares[s]))
}

/// The features of a board that are active for a perspective whose king is on
/// `ksq`.
pub open spec fn board_features(squares: Squares, perspective: int, ksq: int) -> Seq<int> {
    active_features(codes(squares), perspective, ksq, 64)
}

impl<'a> Position<'a> {
    /// The position without masks, hash key, history and accumulators.
    pub open spec fn view(&self) -> Board {
        Board {
            squares: self.mailbox@,
            side: self.side_to_move,
            castling: self.castling_rights,
            ep: self.ep_square,
            halfmove: self.halfmove_clock,
            fullmove: self.fullmove_number,
            kings: self.king_square@,
        }
    }

    /// The masks say the same as the mailbox.
    pub open spec fn masks_wf(&self) -> bool {
        &&& real_pieces(self.mailbox@)
        &&& masks_agree(self.pieces, self.mailbox@)
        &&& forall|c: Color, s: int|
            valid(s) ==> (#[trigger] on(self.occ[c.index()], s) <==> (self.mailbox@[s] matches Some(
                (d, _),
            ) && d == c))
        &&& forall|s: int| valid(s) ==> (#[trigger] on(self.occ_all, s) <==> self.mailbox@[s] is Some)
    }

    /// Every accumulator that is not marked dirty is that of the given squares.
    pub open spec fn tracks(&self, squares: Squares) -> bool {
        &&& self.king_square@[0] < 64
        &&& self.king_square@[1] < 64
        &&& self.ctx.nnue matches Some(ev) ==> forall|p: int|
            0 <= p < 2 && !#[trigger] self.nnue_dirty@[p] ==> self.nnue_accum@[p].accumulates(
                ev.feature_transformer,
                board_features(squares, p, self.king_square@[p] as int),
            )
    }

    /// All parts of the position fit together.
    pub open spec fn wf(&self) -> bool {
        &&& self.ctx.wf()
        &&& self.masks_wf()
        &&& board_wf(self@)
        &&& self.zobrist_key == board_hash(self@)
        &&& self.tracks(self.mailbox@)
        &&& !self.nnue_dirty@[0]
        &&& !self.nnue_dirty@[1]
    }

    /// Nothing but the masks and the mailbox differs.
    pub open spec fn same_but_board(&self, other: &Self) -> bool {
        &&& self.ctx == other.ctx
        &&& self.side_to_move == other.side_to_move
        &&& self.castling_rights == other.castling_rights
        &&& self.ep_square == other.ep_square
        &&& self.halfmove_clock == other.halfmove_clock
        &&& self.fullmove_number == other.fullmove_number
        &&& self.king_square == other.king_square
        &&& self.zobrist_key == other.zobrist_key
        &&& self.undo_stack == other.undo_stack
        &&& self.nnue_accum == other.nnue_accum
        &&& self.nnue_dirty == other.nnue_dirty
    }

    #[inline(always)]
    fn put_piece(&mut self, color: Color, pt: PieceType, square: u8)
        requires
            old(self).masks_wf(),
            pt != PieceType::NoPiece,
            square < 64,
            old(self).mailbox@[square as int] is None,
        ensures
            final(self).masks_wf(),
            final(self).mailbox@ == old(self).mailbox@.update(square as int, Some((color, pt))),
            final(self).same_but_board(old(self)),
    {
        let mask = bit(square);
        self.pieces[color.idx()][pt.idx()] = self.pieces[color.idx()][pt.idx()] | mask;
        self.occ[color.idx()] = self.occ[color.idx()] | mask;
        self.occ_all = self.occ_all | mask;
        self.mailbox[square as usize] = Some((color, pt));
    }

    #[inline(always)]
    fn remove_piece(&mut self, color: Color, pt: PieceType, square: u8)
        requires
            old(self).masks_wf(),
            pt != PieceType::NoPiece,
            square < 64,
            old(self).mailbox@[square as int] == Some((color, pt)),
        ensures
            final(self).masks_wf(),
            final(self).mailbox@ == old(self).mailbox@.update(square as int, None),
            final(self).same_but_board(old(self)),
    {
        let mask = bit(square);
        self.pieces[color.idx()][pt.idx()] = self.pieces[color.idx()][pt.idx()] & !mask;
        self.occ[color.idx()] = self.occ[color.idx()] & !mask;
        self.occ_all = self.occ_all & !mask;
        self.mailbox[square as usize] = None;
    }

    #[inline(always)]
    fn move_piece(&mut self, color: Color, pt: PieceType, from: u8, to: u8)
        requires
            old(self).masks_wf(),
            pt != PieceType::NoPiece,
            from < 64,
            to < 64,
            from != to,
            old(self).mailbox@[from as int] == Some((color, pt)),
            old(self).mailbox@[to as int] is None,
        ensures
            final(self).masks_wf(),
            final(self).mailbox@ == old(self).mailbox@.update(from as int, None).update(
                to as int,
                Some((color, pt)),
            ),
            final(self).same_but_board(old(self)),
    {
        let mask = bit(from) | bit(to);
        self.pieces[color.idx()][pt.idx()] = self.pieces[color.idx()][pt.idx()] ^ mask;
        self.occ[color.idx()] = self.occ[color.idx()] ^ mask;
        self.occ_all = self.occ_all ^ mask;
        self.mailbox[from as usize] = None;
        self.mailbox[to as usize] = Some((color, pt));
    }
}

/// The last square of a board with the king of the given colour; the first
/// square of all if there is none.
pub open spec fn seen_king(squares: Squares, perspective: int) -> int {
    match last_square(codes(squares), (6 + 8 * perspective) as u32, 64) {
        Some(s) => s,
        None => 0,
    }
}

impl<'a> Position<'a> {
    /// The number by which the network knows a piece.
    #[inline(always)]
    fn nnue_piece(color: Color, pt: PieceType) -> (r: u32)
        ensures
            r == code_of(Some((color, pt))),
            r < 16,
    {
        let base: u32 = match pt {
            PieceType::Pawn => W_PAWN,
            PieceType::Knight => W_KNIGHT,
            PieceType::Bishop => W_BISHOP,
            PieceType::Rook => W_ROOK,
            PieceType::Queen => W_QUEEN,
            PieceType::King => W_KING,
            PieceType::NoPiece => {
                return NO_PIECE;
            },
        };
        match color {
            Color::White => base,
            Color::Black => base + 8,
        }
    }

    /// Nothing but the accumulators and their marks differs, and no mark is
    /// taken away.
    pub open spec fn same_but_accum(&self, other: &Self) -> bool {
        &&& self.ctx == other.ctx
        &&& self.pieces == other.pieces
        &&& self.occ == other.occ
        &&& self.occ_all == other.occ_all
        &&& self.mailbox == other.mailbox
        &&& self.side_to_move == other.side_to_move
        &&& self.castling_rights == other.castling_rights
        &&& self.ep_square == other.ep_square
        &&& self.halfmove_clock == other.halfmove_clock
        &&& self.fullmove_number == other.fullmove_number
        &&& self.king_square == other.king_square
        &&& self.zobrist_key == other.zobrist_key
        &&& self.undo_stack == other.undo_stack
    }

    /// Tells both accumulators that a piece comes to a square or leaves it.
    ///
    /// `squares` is the board that the accumulators are at.
    #[inline]
    fn toggle_piece_feature(
        &mut self,
        color: Color,
        pt: PieceType,
        square: u8,
        add: bool,
        Ghost(squares): Ghost<Squares>,
    )
        requires
            old(self).ctx.wf(),
            old(self).tracks(squares),
            squares.len() == 64,
            square < 64,
            pt != PieceType::NoPiece,
            squares[square as int] == if add {
                None
            } else {
                Some((color, pt))
            },
        ensures
            final(self).same_but_accum(old(self)),
            final(self).tracks(
                squares.update(
                    square as int,
                    if add {
                        Some((color, pt))
                    } else {
                        None
                    },
                ),
            ),
            old(self).nnue_dirty@[0] ==> final(self).nnue_dirty@[0],
            old(self).nnue_dirty@[1] ==> final(self).nnue_dirty@[1],
            pt == PieceType::King && final(self).ctx.nnue is Some ==> final(self).nnue_dirty@[color.index()],
            pt != PieceType::King ==> final(self).nnue_dirty == old(self).nnue_dirty,
    {
        let ctx = self.ctx;
        match &ctx.nnue {
            None => {},
            Some(evaluator) => {
                let ft = &evaluator.feature_transformer;
                let pc = Self::nnue_piece(color, pt);
                let ghost x = if add {
                    Some((color, pt))
                } else {
                    None::<(Color, PieceType)>
                };
                let ghost target = squares.update(square as int, x);
                proof {
                    assert(codes(target) =~= codes(squares).update(
                        square as int,
                        if add {
                            pc
                        } else {
                            NO_PIECE
                        },
                    ));
                }
                let mut p: usize = 0;
                while p < 2
                    invariant
                        p <= 2,
                        ctx == self.ctx,
                        ctx.wf(),
                        ctx.nnue == Some(*evaluator),
                        *ft == evaluator.feature_transformer,
                        pc == code_of(Some((color, pt))),
                        pc < 16,
                        square < 64,
                        pt != PieceType::NoPiece,
                        squares.len() == 64,
                        squares[square as int] == if add {
                            None
                        } else {
                            Some((color, pt))
                        },
                        target == squares.update(square as int, x),
                        codes(target) == codes(squares).update(
                            square as int,
                            if add {
                                pc
                            } else {
                                NO_PIECE
                            },
                        ),
                        self.same_but_accum(old(self)),
                        self.king_square@[0] < 64,
                        self.king_square@[1] < 64,
                        forall|q: int|
                            p <= q < 2 ==> #[trigger] self.nnue_dirty@[q] == old(self).nnue_dirty@[q],
                        forall|q: int|
                            p <= q < 2 && !#[trigger] self.nnue_dirty@[q]
                                ==> self.nnue_accum@[q].accumulates(
                                *ft,
                                board_features(squares, q, self.king_square@[q] as int),
                            ),
                        forall|q: int|
                            0 <= q < p && !#[trigger] self.nnue_dirty@[q]
                                ==> self.nnue_accum@[q].accumulates(
                                *ft,
                                board_features(target, q, self.king_square@[q] as int),
                            ),
                        forall|q: int|
                            0 <= q < p ==> (#[trigger] self.nnue_dirty@[q] <==> old(self).nnue_dirty@[q] || (color.index() == q && pt == PieceType::King)),
                    decreases 2 - p,
                {
                    if self.nnue_dirty[p] {
                    } else if color.idx() == p && pt == PieceType::King {
                        self.nnue_dirty[p] = true;
                    } else {
                        let ksq: u32 = self.king_square[p] as u32;
                        let index = make_index(p as u32, square as u32, pc, ksq);
                        let ghost before = self.nnue_accum@[p as int];
                        let mut accum = self.nnue_accum[p];
                        apply_feature(&mut accum, ft, index, add);
                        self.nnue_accum[p] = accum;
                        proof {
                            follows_board(
                                before,
                                accum,
                                *ft,
                                codes(squares),
                                p as int,
                                ksq as int,
                                square as int,
                                pc,
                                add,
                            );
                        }
                    }
                    p += 1;
                }
                proof {
                    if pt != PieceType::King {
                        assert(self.nnue_dirty =~= old(self).nnue_dirty) by {
                            assert(self.nnue_dirty@[0] == old(self).nnue_dirty@[0]);
                            assert(self.nnue_dirty@[1] == old(self).nnue_dirty@[1]);
                        }
                    } else {
                        assert(self.nnue_dirty@[color.index()]);
                    }
                    assert(old(self).nnue_dirty@[0] ==> self.nnue_dirty@[0]);
                    assert(old(self).nnue_dirty@[1] ==> self.nnue_dirty@[1]);
                }
            },
        }
    }
}

proof fn last_square_found(board: Seq<u32>, piece: u32, k: int, n: int)
    requires
        0 <= k < n,
        board[k] == piece,
        forall|s: int| 0 <= s < n && s != k ==> #[trigger] board[s] != piece,
    ensures
        last_square(board, piece, n) == Some(k),
    decreases n,
{
    if n - 1 != k {
        assert(board[n - 1] != piece);
        last_square_found(board, piece, k, n - 1);
    }
}

/// On a board that makes sense the network sees the kings where they are.
pub proof fn seen_kings(b: Board)
    requires
        board_wf(b),
    ensures
        seen_king(b.squares, 0) == b.kings[0],
        seen_king(b.squares, 1) == b.kings[1],
{
    let cs = codes(b.squares);
    assert(king_at_home(b, Color::White) && king_at_home(b, Color::Black));
    assert forall|s: int| 0 <= s < 64 && s != b.kings[0] implies #[trigger] cs[s] != 6 by {
        assert(valid(s));
        let x = b.squares[s];
    }
    assert forall|s: int| 0 <= s < 64 && s != b.kings[1] implies #[trigger] cs[s] != 14 by {
        assert(valid(s));
        let x = b.squares[s];
    }
    last_square_found(cs, 6, b.kings[0] as int, 64);
    last_square_found(cs, 14, b.kings[1] as int, 64);
}

impl<'a> Position<'a> {
    #[inline]
    pub fn piece_at(&self, square: u8) -> (r: Option<(Color, PieceType)>)
        requires
            square < 64,
        ensures
            r == self.mailbox@[square as int],
    {
        self.mailbox[square as usize]
    }

    /// Computes afresh every accumulator that is marked dirty, and takes the
    /// marks away.
    fn refresh_dirty_nnue_perspectives(&mut self)
        requires
            old(self).ctx.wf(),
        ensures
            final(self).same_but_accum(old(self)),
            !final(self).nnue_dirty@[0],
            !final(self).nnue_dirty@[1],
            final(self).ctx.nnue matches Some(ev) ==> forall|p: int|
                0 <= p < 2 && #[trigger] old(self).nnue_dirty@[p] ==> final(
                    self).nnue_accum@[p].accumulates(
                    ev.feature_transformer,
                    board_features(final(self).mailbox@, p, seen_king(final(self).mailbox@, p)),
                ),
            forall|p: int|
                0 <= p < 2 && !#[trigger] old(self).nnue_dirty@[p] ==> final(self).nnue_accum@[p]
                    == old(self).nnue_accum@[p],
    {
        if !self.nnue_dirty[0] && !self.nnue_dirty[1] {
            return;
        }
        let ctx = self.ctx;
        match &ctx.nnue {
            None => {
                self.nnue_dirty = [false, false];
            },
            Some(evaluator) => {
                let ft = &evaluator.feature_transformer;
                let nnue_pos = to_nnue(self);
                let mut p: usize = 0;
                while p < 2
                    invariant
                        p <= 2,
                        self.same_but_accum(old(self)),
                        ctx == self.ctx,
                        ctx.nnue == Some(*evaluator),
                        *ft == evaluator.feature_transformer,
                        ft.wf(),
                        nnue_pos.wf(),
                        nnue_pos.board@ == codes(self.mailbox@),
                        nnue_pos.king_square@[0] == seen_king(self.mailbox@, 0),
                        nnue_pos.king_square@[1] == seen_king(self.mailbox@, 1),
                        forall|q: int| 0 <= q < p ==> !#[trigger] self.nnue_dirty@[q],
                        forall|q: int|
                            p <= q < 2 ==> #[trigger] self.nnue_dirty@[q] == old(self).nnue_dirty@[q],
                        forall|q: int|
                            p <= q < 2 ==> #[trigger] self.nnue_accum@[q] == old(self).nnue_accum@[q],
                        forall|q: int|
                            0 <= q < p && #[trigger] old(self).nnue_dirty@[q]
                                ==> self.nnue_accum@[q].accumulates(
                                *ft,
                                board_features(self.mailbox@, q, seen_king(self.mailbox@, q)),
                            ),
                        forall|q: int|
                            0 <= q < p && !#[trigger] old(self).nnue_dirty@[q]
                                ==> self.nnue_accum@[q] == old(self).nnue_accum@[q],
                    decreases 2 - p,
                {
                    if self.nnue_dirty[p] {
                        self.nnue_accum[p] = compute_accumulator(ft, &nnue_pos, p as u32);
                        self.nnue_dirty[p] = false;
                    }
                    p += 1;
                }
                proof {
                    assert(!self.nnue_dirty@[0] && !self.nnue_dirty@[1]);
                }
            },
        }
    }

    /// Computes both accumulators afresh.
    pub(crate) fn refresh_all_nnue_accumulators(&mut self)
        requires
            old(self).ctx.wf(),
        ensures
            final(self).same_but_accum(old(self)),
            !final(self).nnue_dirty@[0],
            !final(self).nnue_dirty@[1],
            final(self).ctx.nnue matches Some(ev) ==> forall|p: int|
                0 <= p < 2 ==> (#[trigger] final(self).nnue_accum@[p]).accumulates(
                    ev.feature_transformer,
                    board_features(final(self).mailbox@, p, seen_king(final(self).mailbox@, p)),
                ),
    {
        self.nnue_dirty = [true, true];
        proof {
            assert(self.nnue_dirty@[0] && self.nnue_dirty@[1]);
        }
        self.refresh_dirty_nnue_perspectives();
    }

    /// Takes a piece off the board and out of the accumulators.
    fn take_off(&mut self, color: Color, pt: PieceType, square: u8)
        requires
            old(self).ctx.wf(),
            old(self).masks_wf(),
            old(self).tracks(old(self).mailbox@),
            pt != PieceType::NoPiece,
            square < 64,
            old(self).mailbox@[square as int] == Some((color, pt)),
        ensures
            final(self).masks_wf(),
            final(self).mailbox@ == old(self).mailbox@.update(square as int, None),
            final(self).tracks(final(self).mailbox@),
            final(self).same_state(old(self)),
            pt == PieceType::King && final(self).ctx.nnue is Some ==> final(
                self).nnue_dirty@[color.index()],
    {
        let ghost squares = self.mailbox@;
        self.toggle_piece_feature(color, pt, square, false, Ghost(squares));
        self.remove_piece(color, pt, square);
    }

    /// Puts a piece on the board and into the accumulators.
    fn set_down(&mut self, color: Color, pt: PieceType, square: u8)
        requires
            old(self).ctx.wf(),
            old(self).masks_wf(),
            old(self).tracks(old(self).mailbox@),
            pt != PieceType::NoPiece,
            square < 64,
            old(self).mailbox@[square as int] is None,
        ensures
            final(self).masks_wf(),
            final(self).mailbox@ == old(self).mailbox@.update(square as int, Some((color, pt))),
            final(self).tracks(final(self).mailbox@),
            final(self).same_state(old(self)),
    {
        let ghost squares = self.mailbox@;
        self.toggle_piece_feature(color, pt, square, true, Ghost(squares));
        self.put_piece(color, pt, square);
    }

    /// Moves a rook, on the board and in the accumulators.
    fn shift_rook(&mut self, color: Color, from: u8, to: u8)
        requires
            old(self).ctx.wf(),
            old(self).masks_wf(),
            old(self).tracks(old(self).mailbox@),
            from < 64,
            to < 64,
            from != to,
            old(self).mailbox@[from as int] == Some((color, PieceType::Rook)),
            old(self).mailbox@[to as int] is None,
        ensures
            final(self).masks_wf(),
            final(self).mailbox@ == old(self).mailbox@.update(from as int, None).update(
                to as int,
                Some((color, PieceType::Rook)),
            ),
            final(self).tracks(final(self).mailbox@),
            final(self).same_state(old(self)),
    {
        let ghost squares = self.mailbox@;
        self.toggle_piece_feature(color, PieceType::Rook, from, false, Ghost(squares));
        let ghost lifted = squares.update(from as int, None);
        self.toggle_piece_feature(color, PieceType::Rook, to, true, Ghost(lifted));
        self.move_piece(color, PieceType::Rook, from, to);
    }

    /// Nothing but the pieces, the accumulators and their marks differs, and
    /// no mark is taken away.
    pub open spec fn same_state(&self, other: &Self) -> bool {
        &&& self.ctx == other.ctx
        &&& self.side_to_move == other.side_to_move
        &&& self.castling_rights == other.castling_rights
        &&& self.ep_square == other.ep_square
        &&& self.halfmove_clock == other.halfmove_clock
        &&& self.fullmove_number == other.fullmove_number
        &&& self.king_square == other.king_square
        &&& self.zobrist_key == other.zobrist_key
        &&& self.undo_stack == other.undo_stack
        &&& other.nnue_dirty@[0] ==> self.nnue_dirty@[0]
        &&& other.nnue_dirty@[1] ==> self.nnue_dirty@[1]
    }

    fn update_castling_rights(&mut self, from: u8, to: u8, piece: PieceType, us: Color)
        ensures
            final(self).castling_rights == rights_after(
                old(self).castling_rights,
                from as int,
                to as int,
                piece,
                us,
            ),
            final(self).same_but_accum(
                &(Position { castling_rights: final(self).castling_rights, ..*old(self) }),
            ),
            final(self).nnue_accum == old(self).nnue_accum,
            final(self).nnue_dirty == old(self).nnue_dirty,
    {
        if piece == PieceType::King {
            match us {
                Color::White => {
                    self.castling_rights = self.castling_rights & !3u8;
                },
                Color::Black => {
                    self.castling_rights = self.castling_rights & !12u8;
                },
            }
        }
        if from == 0 || to == 0 {
            self.castling_rights = self.castling_rights & !CR_WQ;
        }
        if from == 7 || to == 7 {
            self.castling_rights = self.castling_rights & !CR_WK;
        }
        if from == 56 || to == 56 {
            self.castling_rights = self.castling_rights & !CR_BQ;
        }
        if from == 63 || to == 63 {
            self.castling_rights = self.castling_rights & !CR_BK;
        }
    }
}

/// Lifting a piece changes the key by the piece's number.
proof fn rekey_off(squares: Squares, s: int, rest: u64)
    requires
        squares.len() == 64,
        0 <= s < 64,
    ensures
        (squares_hash(squares, 64) ^ rest) ^ square_number(squares[s], s) == squares_hash(
            squares.update(s, None),
            64,
        ) ^ rest,
{
    squares_hash_update(squares, s, None, 64);
    let h = squares_hash(squares, 64);
    let k = square_number(squares[s], s);
    xor_swap(h, rest, k);
    xor_swap(h ^ k, 0, 0);
}

/// So does setting one down.
proof fn rekey_on(squares: Squares, s: int, x: Option<(Color, PieceType)>, rest: u64)
    requires
        squares.len() == 64,
        0 <= s < 64,
        squares[s] is None,
    ensures
        (squares_hash(squares, 64) ^ rest) ^ square_number(x, s) == squares_hash(
            squares.update(s, x),
            64,
        ) ^ rest,
{
    squares_hash_update(squares, s, x, 64);
    let h = squares_hash(squares, 64);
    let k = square_number(x, s);
    xor_swap(h, rest, k);
    xor_swap(h, 0, 0);
}

/// The numbers that a move takes out of the key and puts into it, apart from
/// those of the pieces.
pub open spec fn rekeyed(
    key: u64,
    castling: u8,
    ep: Option<u8>,
    new_castling: u8,
    new_ep: Option<u8>,
) -> u64 {
    let k1 = if ep is Some {
        key ^ ep_hash(ep)
    } else {
        key
    };
    let k2 = if new_ep is Some {
        k1 ^ ep_hash(new_ep)
    } else {
        k1
    };
    let k3 = if castling != new_castling {
        (k2 ^ castling_number(castling as int)) ^ castling_number(new_castling as int)
    } else {
        k2
    };
    k3 ^ side_number()
}

proof fn rekey_state(
    h: u64,
    side: Color,
    castling: u8,
    ep: Option<u8>,
    new_castling: u8,
    new_ep: Option<u8>,
)
    ensures
        rekeyed(h ^ state_hash(side, castling, ep), castling, ep, new_castling, new_ep) == h
            ^ state_hash(side.other(), new_castling, new_ep),
{
    let sd = side_hash(side);
    let sn = side_number();
    let cr = castling_number(castling as int);
    let nc = castling_number(new_castling as int);
    let e = ep_hash(ep);
    let ne = ep_hash(new_ep);
    xor_swap(sn, 0, 0);
    xor_swap(0, sn, 0);
    assert(side_hash(side.other()) == sd ^ sn);
    let k1 = (h ^ (sd ^ cr ^ e)) ^ e;
    let k2 = k1 ^ ne;
    let k3 = (k2 ^ cr) ^ nc;
    assert(k1 == h ^ (sd ^ cr ^ 0) && k3 ^ sn == h ^ ((sd ^ sn) ^ nc ^ ne) && k2 ^ sn == h ^ ((sd ^ sn)
        ^ cr ^ ne)) by (bit_vector)
        requires
            k1 == (h ^ (sd ^ cr ^ e)) ^ e,
            k2 == k1 ^ ne,
            k3 == (k2 ^ cr) ^ nc,
    ;
    xor_swap(h ^ (sd ^ cr ^ e), 0, 0);
    xor_swap(k1, 0, 0);
}

/// What `make_move` remembers of the board `b` when it makes the move `p`.
pub open spec fn undo_of(b: Board, p: MoveParts) -> Undo {
    Undo {
        captured: p.captured,
        captured_color: b.side.other(),
        prev_castling: b.castling,
        prev_ep: b.ep,
        prev_halfmove: b.halfmove,
        prev_zobrist: board_hash(b),
    }
}

/// Refreshing a position whose clean accumulators are right makes both right.
proof fn refreshed(mid: Position, end: Position)
    requires
        board_wf(mid@),
        mid.tracks(mid.mailbox@),
        end.same_but_accum(&mid),
        !end.nnue_dirty@[0],
        !end.nnue_dirty@[1],
        end.ctx.nnue matches Some(ev) ==> forall|p: int|
            0 <= p < 2 && #[trigger] mid.nnue_dirty@[p] ==> end.nnue_accum@[p].accumulates(
                ev.feature_transformer,
                board_features(end.mailbox@, p, seen_king(end.mailbox@, p)),
            ),
        forall|p: int|
            0 <= p < 2 && !#[trigger] mid.nnue_dirty@[p] ==> end.nnue_accum@[p]
                == mid.nnue_accum@[p],
    ensures
        end.tracks(end.mailbox@),
{
    seen_kings(mid@);
    if let Some(ev) = end.ctx.nnue {
        assert forall|p: int|
            0 <= p < 2 && !#[trigger] end.nnue_dirty@[p] implies end.nnue_accum@[p].accumulates(
            ev.feature_transformer,
            board_features(end.mailbox@, p, end.king_square@[p] as int),
        ) by {
            assert(p == 0 || p == 1);
            if mid.nnue_dirty@[p] {
            } else {
                assert(end.nnue_accum@[p] == mid.nnue_accum@[p]);
            }
        }
    }
}

impl<'a> Position<'a> {
    /// The key is that of the pieces and of `rest`.
    pub open spec fn keyed(&self, rest: u64) -> bool {
        self.zobrist_key == squares_hash(self.mailbox@, 64) ^ rest
    }

    /// Masks, accumulators and key fit the mailbox, while a move is being made.
    pub open spec fn in_step(&self, rest: u64) -> bool {
        &&& self.ctx.wf()
        &&& self.masks_wf()
        &&& self.tracks(self.mailbox@)
        &&& self.keyed(rest)
    }

    /// Nothing that lies off the board differs, but for accumulators and key;
    /// no mark is taken away.
    pub open spec fn same_rest(&self, other: &Self) -> bool {
        &&& self.ctx == other.ctx
        &&& self.side_to_move == other.side_to_move
        &&& self.castling_rights == other.castling_rights
        &&& self.ep_square == other.ep_square
        &&& self.halfmove_clock == other.halfmove_clock
        &&& self.fullmove_number == other.fullmove_number
        &&& self.undo_stack == other.undo_stack
        &&& other.nnue_dirty@[0] ==> self.nnue_dirty@[0]
        &&& other.nnue_dirty@[1] ==> self.nnue_dirty@[1]
    }

    /// Takes a piece off and out of the key.
    fn lift(&mut self, color: Color, pt: PieceType, square: u8, Ghost(rest): Ghost<u64>)
        requires
            old(self).in_step(rest),
            pt != PieceType::NoPiece,
            square < 64,
            old(self).mailbox@[square as int] == Some((color, pt)),
        ensures
            final(self).in_step(rest),
            final(self).mailbox@ == old(self).mailbox@.update(square as int, None),
            final(self).king_square == old(self).king_square,
            final(self).same_rest(old(self)),
            pt == PieceType::King && final(self).ctx.nnue is Some ==> final(
                self).nnue_dirty@[color.index()],
    {
        proof {
            rekey_off(self.mailbox@, square as int, rest);
        }
        self.take_off(color, pt, square);
        let ctx = self.ctx;
        self.zobrist_key = self.zobrist_key ^ piece_key(&ctx.zobrist, color, pt, square);
    }

    /// Sets a piece down and puts it into the key.
    fn place(&mut self, color: Color, pt: PieceType, square: u8, Ghost(rest): Ghost<u64>)
        requires
            old(self).in_step(rest),
            pt != PieceType::NoPiece,
            square < 64,
            old(self).mailbox@[square as int] is None,
        ensures
            final(self).in_step(rest),
            final(self).mailbox@ == old(self).mailbox@.update(square as int, Some((color, pt))),
            final(self).king_square == old(self).king_square,
            final(self).same_rest(old(self)),
    {
        proof {
            rekey_on(self.mailbox@, square as int, Some((color, pt)), rest);
        }
        self.set_down(color, pt, square);
        let ctx = self.ctx;
        self.zobrist_key = self.zobrist_key ^ piece_key(&ctx.zobrist, color, pt, square);
    }

    /// Moves the rook of a castling move.
    fn castle_rook(&mut self, color: Color, from: u8, to: u8, Ghost(rest): Ghost<u64>)
        requires
            old(self).in_step(rest),
            from < 64,
            to < 64,
            from != to,
            old(self).mailbox@[from as int] == Some((color, PieceType::Rook)),
            old(self).mailbox@[to as int] is None,
        ensures
            final(self).in_step(rest),
            final(self).mailbox@ == old(self).mailbox@.update(from as int, None).update(
                to as int,
                Some((color, PieceType::Rook)),
            ),
            final(self).king_square == old(self).king_square,
            final(self).same_rest(old(self)),
    {
        let ghost squares = self.mailbox@;
        proof {
            rekey_off(squares, from as int, rest);
            rekey_on(
                squares.update(from as int, None),
                to as int,
                Some((color, PieceType::Rook)),
                rest,
            );
        }
        let ctx = self.ctx;
        self.zobrist_key = self.zobrist_key ^ piece_key(
            &ctx.zobrist,
            color,
            PieceType::Rook,
            from,
        );
        self.shift_rook(color, from, to);
        self.zobrist_key = self.zobrist_key ^ piece_key(&ctx.zobrist, color, PieceType::Rook, to);
    }

    /// Does what a move does on the board: captures, moves the piece, promotes
    /// it, and moves the rook when castling.
    fn move_pieces(&mut self, m: Move, Ghost(rest): Ghost<u64>)
        requires
            old(self).in_step(rest),
            m.wf(),
            board_wf(old(self)@),
            fits(old(self)@, m.parts()),
        ensures
            final(self).in_step(rest),
            final(self).mailbox@ == squares_after(old(self)@, m.parts()),
            final(self).king_square@ == after(old(self)@, m.parts()).kings,
            final(self).same_rest(old(self)),
    {
        let ghost b = self@;
        let ghost p = m.parts();
        let us = self.side_to_move;
        let them = us.opponent();
        let from = m.from_sq();
        let to = m.to_sq();
        let flag = m.flag();
        let piece = m.piece();
        if flag == MoveFlag::EpCapture {
            let cap_sq = sq(rank_of(from), file_of(to));
            self.lift(them, PieceType::Pawn, cap_sq, Ghost(rest));
        } else if flag.is_capture() {
            self.lift(them, m.captured(), to, Ghost(rest));
        }
        self.lift(us, piece, from, Ghost(rest));
        let final_piece = if flag.is_promotion() {
            flag.promo_piece()
        } else {
            piece
        };
        self.place(us, final_piece, to, Ghost(rest));
        if piece == PieceType::King {
            let ghost before = *self;
            self.king_square[us.idx()] = to;
            proof {
                assert(self.tracks(self.mailbox@)) by {
                    assert(self.king_square@[them.index()] == before.king_square@[them.index()]);
                    assert(self.nnue_accum == before.nnue_accum);
                    assert(self.nnue_dirty == before.nnue_dirty);
                }
            }
        }
        match flag {
            MoveFlag::KingCastle => {
                let (rook_from, rook_to) = match us {
                    Color::White => (sq(0, 7), sq(0, 5)),
                    Color::Black => (sq(7, 7), sq(7, 5)),
                };
                self.castle_rook(us, rook_from, rook_to, Ghost(rest));
            },
            MoveFlag::QueenCastle => {
                let (rook_from, rook_to) = match us {
                    Color::White => (sq(0, 0), sq(0, 3)),
                    Color::Black => (sq(7, 0), sq(7, 3)),
                };
                self.castle_rook(us, rook_from, rook_to, Ghost(rest));
            },
            _ => {},
        }
        proof {
            assert(self.mailbox@ =~= squares_after(b, p));
            assert(self.king_square@ =~= after(b, p).kings);
        }
    }

    /// Does what a move does off the board: en-passant square, clocks, castling
    /// rights, side to move, and their part of the key.
    fn move_state(&mut self, m: Move)
        requires
            m.wf(),
        ensures
            final(self).same_board(old(self)),
            final(self).side_to_move == old(self).side_to_move.other(),
            final(self).castling_rights == rights_after(
                old(self).castling_rights,
                m.parts().from,
                m.parts().to,
                m.parts().piece,
                old(self).side_to_move,
            ),
            final(self).ep_square == after(old(self)@, m.parts()).ep,
            final(self).halfmove_clock == after(old(self)@, m.parts()).halfmove,
            final(self).fullmove_number == after(old(self)@, m.parts()).fullmove,
            final(self).zobrist_key == rekeyed(
                old(self).zobrist_key,
                old(self).castling_rights,
                old(self).ep_square,
                final(self).castling_rights,
                final(self).ep_square,
            ),
    {
        let us = self.side_to_move;
        let from = m.from_sq();
        let to = m.to_sq();
        let flag = m.flag();
        let piece = m.piece();
        let ctx = self.ctx;
        if let Some(epsq) = self.ep_square {
            self.zobrist_key = self.zobrist_key ^ ep_file_key(&ctx.zobrist, file_of(epsq));
        }
        self.ep_square = None;
        self.halfmove_clock = self.halfmove_clock.wrapping_add(1);
        if piece == PieceType::Pawn || flag.is_capture() {
            self.halfmove_clock = 0;
        }
        if flag == MoveFlag::DoublePawnPush {
            let epsq = sq((rank_of(from) + rank_of(to)) / 2, file_of(from));
            self.ep_square = Some(epsq);
            self.zobrist_key = self.zobrist_key ^ ep_file_key(&ctx.zobrist, file_of(epsq));
        }
        let old_cr = self.castling_rights;
        self.update_castling_rights(from, to, piece, us);
        if old_cr != self.castling_rights {
            self.zobrist_key = self.zobrist_key ^ castling_key(&ctx.zobrist, old_cr);
            self.zobrist_key = self.zobrist_key ^ castling_key(&ctx.zobrist, self.castling_rights);
        }
        self.zobrist_key = self.zobrist_key ^ side_key(&ctx.zobrist);
        self.side_to_move = us.opponent();
        if us == Color::Black {
            self.fullmove_number = self.fullmove_number.wrapping_add(1);
        }
    }

    /// Pieces, accumulators and history are the same.
    pub open spec fn same_board(&self, other: &Self) -> bool {
        &&& self.ctx == other.ctx
        &&& self.pieces == other.pieces
        &&& self.occ == other.occ
        &&& self.occ_all == other.occ_all
        &&& self.mailbox == other.mailbox
        &&& self.king_square == other.king_square
        &&& self.undo_stack == other.undo_stack
        &&& self.nnue_accum == other.nnue_accum
        &&& self.nnue_dirty == other.nnue_dirty
    }

    /// Makes a move.
    pub fn make_move(&mut self, m: Move)
        requires
            old(self).wf(),
            m.wf(),
            fits(old(self)@, m.parts()),
        ensures
            final(self).wf(),
            final(self)@ == after(old(self)@, m.parts()),
            final(self).ctx == old(self).ctx,
            final(self).undo_stack@ == old(self).undo_stack@.push(
                undo_of(old(self)@, m.parts()),
            ),
    {
        let ghost b = self@;
        let ghost p = m.parts();
        let us = self.side_to_move;
        let them = us.opponent();
        let undo = Undo {
            captured: m.captured(),
            captured_color: them,
            prev_castling: self.castling_rights,
            prev_ep: self.ep_square,
            prev_halfmove: self.halfmove_clock,
            prev_zobrist: self.zobrist_key,
        };
        let ghost rest = state_hash(b.side, b.castling, b.ep);
        self.move_pieces(m, Ghost(rest));
        self.move_state(m);
        proof {
            rekey_state(
                squares_hash(self.mailbox@, 64),
                b.side,
                b.castling,
                b.ep,
                self.castling_rights,
                self.ep_square,
            );
            assert(self@ == after(b, p));
            after_wf(b, p);
            seen_kings(self@);
        }
        let ghost mid = *self;
        self.refresh_dirty_nnue_perspectives();
        proof {
            refreshed(mid, *self);
        }
        self.undo_stack.push(undo);
    }
}

/// The board before the move `p` that led to `b` and left `u` behind.
pub open spec fn taken_back(b: Board, p: MoveParts, u: Undo) -> Board {
    before(b, p, u.prev_castling, u.prev_ep, u.prev_halfmove)
}

/// `p` and `u` tell how `b` came about.
pub open spec fn restorable(b: Board, p: MoveParts, u: Undo) -> bool {
    let c = taken_back(b, p, u);
    &&& board_wf(c)
    &&& fits(c, p)
    &&& after(c, p) == b
    &&& u == undo_of(c, p)
}

/// After a move has been made it can be taken back, and taking it back gives
/// the board that it was made on.
pub proof fn made_is_restorable(b: Board, p: MoveParts)
    requires
        board_wf(b),
        fits(b, p),
    ensures
        restorable(after(b, p), p, undo_of(b, p)),
        taken_back(after(b, p), p, undo_of(b, p)) == b,
{
    before_after(b, p);
}

/// Passing and taking the pass back gives the same board.
pub proof fn null_move_round_trip(b: Board)
    ensures
        (Board { ep: b.ep, side: after_null(b).side.other(), ..after_null(b) }) == b,
{
}

/// The masks, the key and the accumulators of a position follow from its view:
/// two positions with the same view agree in all of them.
pub proof fn view_determines(p: Position, q: Position)
    requires
        p.wf(),
        q.wf(),
        p@ == q@,
        p.ctx == q.ctx,
    ensures
        p.pieces == q.pieces,
        p.occ == q.occ,
        p.occ_all == q.occ_all,
        p.mailbox == q.mailbox,
        p.king_square == q.king_square,
        p.zobrist_key == q.zobrist_key,
        p.nnue_dirty == q.nnue_dirty,
        p.ctx.nnue is Some ==> p.nnue_accum == q.nnue_accum,
{
    assert forall|c: int, t: int| 0 <= c < 2 && 0 <= t < 6 implies #[trigger] p.pieces[c][t]
        == q.pieces[c][t] by {
        let color = color_at(6 * c);
        let pt = PieceType::of_index(t);
        assert(color.index() == c && pt.index() == t);
        assert forall|s: int| 0 <= s < 64 implies (#[trigger] on(p.pieces[c][t], s) <==> on(
            q.pieces[c][t],
            s,
        )) by {
            assert(valid(s));
            assert(on(p.pieces[color.index()][pt.index()], s) <==> p.mailbox@[s] == Some(
                (color, pt),
            ));
            assert(on(q.pieces[color.index()][pt.index()], s) <==> q.mailbox@[s] == Some(
                (color, pt),
            ));
        }
        same_members(p.pieces[c][t], q.pieces[c][t]);
    }
    assert forall|c: int| 0 <= c < 2 implies #[trigger] p.occ[c] == q.occ[c] by {
        let color = color_at(6 * c);
        assert(color.index() == c);
        assert forall|s: int| 0 <= s < 64 implies (#[trigger] on(p.occ[c], s) <==> on(q.occ[c], s)) by {
            assert(valid(s));
            assert(on(p.occ[color.index()], s) <==> on(q.occ[color.index()], s));
        }
        same_members(p.occ[c], q.occ[c]);
    }
    assert forall|s: int| 0 <= s < 64 implies (#[trigger] on(p.occ_all, s) <==> on(q.occ_all, s)) by {
        assert(valid(s));
    }
    same_members(p.occ_all, q.occ_all);
    assert forall|c: int| 0 <= c < 2 implies #[trigger] p.pieces[c] == q.pieces[c] by {
        assert forall|t: int| 0 <= t < 6 implies #[trigger] p.pieces[c]@[t] == q.pieces[c]@[t] by {
            assert(p.pieces[c][t] == q.pieces[c][t]);
        }
        assert(p.pieces[c] =~= q.pieces[c]);
    }
    assert forall|c: int| 0 <= c < 2 implies #[trigger] p.pieces@[c] == q.pieces@[c] by {
        assert(p.pieces[c] == q.pieces[c]);
    }
    assert forall|c: int| 0 <= c < 2 implies #[trigger] p.occ@[c] == q.occ@[c] by {
        assert(p.occ[c] == q.occ[c]);
    }
    assert(p.pieces =~= q.pieces);
    assert(p.occ =~= q.occ);
    assert(p.mailbox =~= q.mailbox) by {
        assert(p@.squares == q@.squares);
    }
    assert(p.king_square =~= q.king_square) by {
        assert(p@.kings == q@.kings);
    }
    assert(p.nnue_dirty =~= q.nnue_dirty) by {
        assert(p.nnue_dirty@[0] == q.nnue_dirty@[0]);
        assert(p.nnue_dirty@[1] == q.nnue_dirty@[1]);
    }
    if let Some(ev) = p.ctx.nnue {
        assert forall|i: int| 0 <= i < 2 implies #[trigger] p.nnue_accum@[i] == q.nnue_accum@[i] by {
            assert(!p.nnue_dirty@[i] && !q.nnue_dirty@[i]);
            accumulator_unique(
                p.nnue_accum@[i],
                q.nnue_accum@[i],
                ev.feature_transformer,
                board_features(p.mailbox@, i, p.king_square@[i] as int),
            );
        }
        assert(p.nnue_accum =~= q.nnue_accum);
    }
}

impl<'a> Position<'a> {
    /// Puts the pieces back to where they stood on the board `c` before the
    /// move.
    fn move_pieces_back(&mut self, m: Move, us: Color, Ghost(c): Ghost<Board>)
        requires
            old(self).ctx.wf(),
            old(self).masks_wf(),
            old(self).tracks(old(self).mailbox@),
            m.wf(),
            board_wf(c),
            us == c.side,
            fits(c, m.parts()),
            old(self).mailbox@ == squares_after(c, m.parts()),
            old(self).king_square@ == after(c, m.parts()).kings,
        ensures
            final(self).masks_wf(),
            final(self).tracks(final(self).mailbox@),
            final(self).mailbox@ == c.squares,
            final(self).king_square@ == c.kings,
            final(self).same_rest(old(self)),
    {
        let ghost p = m.parts();
        let them = us.opponent();
        let from = m.from_sq();
        let to = m.to_sq();
        let flag = m.flag();
        let piece = m.piece();
        let final_piece = if flag.is_promotion() {
            flag.promo_piece()
        } else {
            piece
        };
        self.take_off(us, final_piece, to);
        self.set_down(us, piece, from);
        if piece == PieceType::King {
            let ghost between = *self;
            self.king_square[us.idx()] = from;
            proof {
                assert(self.tracks(self.mailbox@)) by {
                    assert(self.king_square@[them.index()] == between.king_square@[them.index()]);
                    assert(self.nnue_accum == between.nnue_accum);
                    assert(self.nnue_dirty == between.nnue_dirty);
                }
            }
        }
        match flag {
            MoveFlag::KingCastle => {
                let (rook_from, rook_to) = match us {
                    Color::White => (sq(0, 7), sq(0, 5)),
                    Color::Black => (sq(7, 7), sq(7, 5)),
                };
                self.shift_rook(us, rook_to, rook_from);
            },
            MoveFlag::QueenCastle => {
                let (rook_from, rook_to) = match us {
                    Color::White => (sq(0, 0), sq(0, 3)),
                    Color::Black => (sq(7, 0), sq(7, 3)),
                };
                self.shift_rook(us, rook_to, rook_from);
            },
            MoveFlag::EpCapture => {
                let cap_sq = sq(rank_of(from), file_of(to));
                self.set_down(them, PieceType::Pawn, cap_sq);
            },
            _ => {
                if flag.is_capture() {
                    self.set_down(them, m.captured(), to);
                }
            },
        }
        proof {
            assert(king_at_home(c, us));
            assert(self.mailbox@ =~= c.squares);
            assert(self.king_square@ =~= c.kings);
        }
    }

    /// Takes the last move back.
    pub fn unmake_move(&mut self, m: Move)
        requires
            old(self).wf(),
            m.wf(),
            old(self).undo_stack@.len() > 0,
            restorable(old(self)@, m.parts(), old(self).undo_stack@.last()),
        ensures
            final(self).wf(),
            final(self)@ == taken_back(old(self)@, m.parts(), old(self).undo_stack@.last()),
            final(self).ctx == old(self).ctx,
            final(self).undo_stack@ == old(self).undo_stack@.drop_last(),
    {
        let ghost c = taken_back(self@, m.parts(), self.undo_stack@.last());
        let them = self.side_to_move;
        let us = them.opponent();
        self.side_to_move = us;
        if us == Color::Black {
            self.fullmove_number = self.fullmove_number.wrapping_sub(1);
        }
        self.move_pieces_back(m, us, Ghost(c));
        let undo = match self.undo_stack.pop() {
            Some(u) => u,
            None => {
                return;
            },
        };
        self.castling_rights = undo.prev_castling;
        self.ep_square = undo.prev_ep;
        self.halfmove_clock = undo.prev_halfmove;
        self.zobrist_key = undo.prev_zobrist;
        let ghost mid = *self;
        proof {
            assert(self@ == c);
        }
        self.refresh_dirty_nnue_perspectives();
        proof {
            refreshed(mid, *self);
        }
    }

    /// Passes; gives back the en-passant square that the pass has wiped out.
    pub fn make_null_move(&mut self) -> (r: Option<u8>)
        requires
            old(self).wf(),
        ensures
            final(self).wf(),
            final(self)@ == after_null(old(self)@),
            r == old(self).ep_square,
            final(self).ctx == old(self).ctx,
            final(self).undo_stack == old(self).undo_stack,
            final(self).nnue_accum == old(self).nnue_accum,
    {
        let ghost b = self@;
        let ctx = self.ctx;
        let prev_ep = self.ep_square;
        if let Some(epsq) = prev_ep {
            self.zobrist_key = self.zobrist_key ^ ep_file_key(&ctx.zobrist, file_of(epsq));
        }
        self.ep_square = None;
        self.zobrist_key = self.zobrist_key ^ side_key(&ctx.zobrist);
        self.side_to_move = self.side_to_move.opponent();
        proof {
            rekey_state(
                squares_hash(b.squares, 64),
                b.side,
                b.castling,
                b.ep,
                b.castling,
                None,
            );
            assert(king_at_home(b, Color::White) && king_at_home(b, Color::Black));
            assert(board_wf(self@));
        }
        prev_ep
    }

    /// Takes a pass back.
    pub fn unmake_null_move(&mut self, prev_ep: Option<u8>)
        requires
            old(self).wf(),
            old(self).ep_square is None,
        ensures
            final(self).wf(),
            final(self)@ == (Board {
                ep: prev_ep,
                side: old(self).side_to_move.other(),
                ..old(self)@
            }),
            final(self).ctx == old(self).ctx,
            final(self).undo_stack == old(self).undo_stack,
            final(self).nnue_accum == old(self).nnue_accum,
    {
        let ghost b = self@;
        let ctx = self.ctx;
        self.side_to_move = self.side_to_move.opponent();
        self.zobrist_key = self.zobrist_key ^ side_key(&ctx.zobrist);
        if let Some(epsq) = prev_ep {
            self.zobrist_key = self.zobrist_key ^ ep_file_key(&ctx.zobrist, file_of(epsq));
        }
        self.ep_square = prev_ep;
        proof {
            let h = squares_hash(b.squares, 64) ^ state_hash(b.side, b.castling, b.ep);
            rekey_state(
                squares_hash(b.squares, 64),
                b.side,
                b.castling,
                b.ep,
                b.castling,
                prev_ep,
            );
            xor_swap(h, side_number(), ep_hash(prev_ep));
            assert(king_at_home(b, Color::White) && king_at_home(b, Color::Black));
        }
    }

    /// Half-moves played since the first move, as the move number tells.
    #[inline(always)]
    pub fn ply(&self) -> (r: u32)
        ensures
            self.fullmove_number >= 1 ==> r == 2 * (self.fullmove_number - 1)
                + self.side_to_move.index(),
            self.fullmove_number == 0 ==> r == 0xffff_fffe + self.side_to_move.index(),
    {
        let start: u32 = (self.fullmove_number as u32).wrapping_sub(1).wrapping_mul(2);
        let turn: u32 = if self.side_to_move == Color::Black {
            1
        } else {
            0
        };
        start + turn
    }

    /// Whether a side has anything but pawns and king.
    pub fn non_pawn_king_material(&self, color: Color) -> (r: bool)
        requires
            self.masks_wf(),
        ensures
            r <==> exists|s: int|
                valid(s) && (#[trigger] self.mailbox@[s] matches Some((c, pt)) && c == color && pt
                    != PieceType::Pawn && pt != PieceType::King),
    {
        let c = color.idx();
        let all: u64 = self.pieces[c][PieceType::Knight.idx()] | self.pieces[c][PieceType::Bishop.idx()]
            | self.pieces[c][PieceType::Rook.idx()] | self.pieces[c][PieceType::Queen.idx()];
        proof {
            let i = color.index();
            let n = self.pieces[i][PieceType::Knight.index()];
            let b = self.pieces[i][PieceType::Bishop.index()];
            let k = self.pieces[i][PieceType::Rook.index()];
            let q = self.pieces[i][PieceType::Queen.index()];
            if all != 0 {
                lowest(all);
                let s = vstd::std_specs::bits::u64_trailing_zeros(all) as int;
                assert(valid(s));
                assert(on(n, s) || on(b, s) || on(k, s) || on(q, s));
                let x = self.mailbox@[s];
            } else {
                assert forall|s: int| valid(s) implies !(#[trigger] self.mailbox@[s] matches Some(
                    (d, pt),
                ) && d == color && pt != PieceType::Pawn && pt != PieceType::King) by {
                    assert(!on(all, s));
                    assert(!on(n, s) && !on(b, s) && !on(k, s) && !on(q, s));
                }
            }
        }
        all != 0
    }
}

impl<'a> Position<'a> {
    /// A copy of the position, history and all.
    pub fn duplicate(&self) -> (r: Position<'a>)
        ensures
            r.undo_stack@ == self.undo_stack@,
            r == (Position { undo_stack: r.undo_stack, ..*self }),
            r@ == self@,
            self.wf() ==> r.wf(),
    {
        let mut undo_stack: Vec<Undo> = Vec::new();
        let mut i: usize = 0;
        while i < self.undo_stack.len()
            invariant
                i <= self.undo_stack@.len(),
                undo_stack@ =~= self.undo_stack@.take(i as int),
            decreases self.undo_stack@.len() - i,
        {
            undo_stack.push(self.undo_stack[i]);
            i += 1;
        }
        proof {
            assert(undo_stack@ =~= self.undo_stack@);
        }
        Position {
            ctx: self.ctx,
            pieces: self.pieces,
            occ: self.occ,
            occ_all: self.occ_all,
            mailbox: self.mailbox,
            side_to_move: self.side_to_move,
            castling_rights: self.castling_rights,
            ep_square: self.ep_square,
            halfmove_clock: self.halfmove_clock,
            fullmove_number: self.fullmove_number,
            king_square: self.king_square,
            zobrist_key: self.zobrist_key,
            undo_stack,
            nnue_accum: self.nnue_accum,
            nnue_dirty: self.nnue_dirty,
        }
    }
}

} // verus!
