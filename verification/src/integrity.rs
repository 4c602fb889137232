//! Checking that a position is in order, and that it is one to play from.
use vstd::prelude::*;
use crate::bits::{group_bits, on, same_members};
use crate::eval::to_nnue;
use crate::fen::{masks_of, union_of};
use crate::geometry::valid;
use crate::movegen::{holds_piece, is_in_check};
use crate::nnue::accum::{Accumulator, compute_accumulator};
use crate::nnue::inference::accumulator_unique;
use crate::nnue::position::{BLACK, WHITE};
use crate::pieces::{Color, PieceType};
use crate::position::{Position, board_features, seen_kings};
use crate::rules::{Squares, board_wf, king_at_home, king_of, playable};
use crate::zobrist::{compute_full, masks_agree, real_pieces};

verus! {

broadcast use group_bits;

/// Whether two rows of masks are the same.
fn same_row(a: &[u64; 6], b: &[u64; 6]) -> (r: bool)
    ensures
        r == (*a == *b),
{
    let mut i: usize = 0;
    while i < 6
        invariant
            i <= 6,
            forall|j: int| 0 <= j < i ==> a@[j] == b@[j],
        decreases 6 - i,
    {
        if a[i] != b[i] {
            return false;
        }
        i += 1;
    }
    proof {
        assert(*a =~= *b);
    }
    true
}

/// Whether the masks of a position say the same as its mailbox.
fn masks_match(pos: &Position) -> (r: bool)
    requires
        real_pieces(pos.mailbox@),
    ensures
        r == pos.masks_wf(),
{
    let fresh = masks_of(&pos.mailbox);
    let white = union_of(&fresh[0]);
    let black = union_of(&fresh[1]);
    let all_same = same_row(&pos.pieces[0], &fresh[0]) && same_row(&pos.pieces[1], &fresh[1])
        && pos.occ[0] == white && pos.occ[1] == black && pos.occ_all == white | black;
    proof {
        let squares = pos.mailbox@;
        assert forall|s: int| valid(s) implies (#[trigger] on(white, s) <==> (squares[s] matches Some(
            (d, _),
        ) && d == Color::White)) by {
            side_union(fresh, fresh[0], squares, Color::White, white, s);
        }
        assert forall|s: int| valid(s) implies (#[trigger] on(black, s) <==> (squares[s] matches Some(
            (d, _),
        ) && d == Color::Black)) by {
            side_union(fresh, fresh[1], squares, Color::Black, black, s);
        }
        if all_same {
            assert(pos.pieces =~= fresh) by {
                assert(pos.pieces@[0] == fresh@[0] && pos.pieces@[1] == fresh@[1]);
            }
            assert forall|c: Color, s: int| valid(s) implies (#[trigger] on(pos.occ[c.index()], s)
                <==> (squares[s] matches Some((d, _)) && d == c)) by {
                assert(on(white, s) || !on(white, s));
                assert(on(black, s) || !on(black, s));
            }
            assert forall|s: int| valid(s) implies (#[trigger] on(pos.occ_all, s) <==> squares[s] is Some) by {
                assert(on(white, s) || !on(white, s));
                assert(on(black, s) || !on(black, s));
            }
        }
        if pos.masks_wf() {
            assert forall|t: int| 0 <= t < 6 implies #[trigger] pos.pieces[0]@[t] == fresh[0]@[t] by {
                same_piece_mask(pos.pieces, fresh, squares, Color::White, t);
            }
            assert forall|t: int| 0 <= t < 6 implies #[trigger] pos.pieces[1]@[t] == fresh[1]@[t] by {
                same_piece_mask(pos.pieces, fresh, squares, Color::Black, t);
            }
            assert(pos.pieces[0] =~= fresh[0]);
            assert(pos.pieces[1] =~= fresh[1]);
            assert forall|s: int| 0 <= s < 64 implies (#[trigger] on(pos.occ[0], s) <==> on(white, s)) by {
                assert(on(pos.occ[Color::White.index()], s) <==> (squares[s] matches Some((d, _)) && d
                    == Color::White));
            }
            same_members(pos.occ[0], white);
            assert forall|s: int| 0 <= s < 64 implies (#[trigger] on(pos.occ[1], s) <==> on(black, s)) by {
                assert(on(pos.occ[Color::Black.index()], s) <==> (squares[s] matches Some((d, _)) && d
                    == Color::Black));
            }
            same_members(pos.occ[1], black);
            assert forall|s: int| 0 <= s < 64 implies (#[trigger] on(pos.occ_all, s) <==> on(
                white | black,
                s,
            )) by {
                assert(valid(s));
                assert(on(white, s) || !on(white, s));
                assert(on(black, s) || !on(black, s));
            }
            same_members(pos.occ_all, white | black);
        }
    }
    all_same
}

proof fn side_union(
    fresh: [[u64; 6]; 2],
    row: [u64; 6],
    squares: Squares,
    c: Color,
    mask: u64,
    s: int,
)
    requires
        masks_agree(fresh, squares),
        real_pieces(squares),
        valid(s),
        row == fresh[c.index()],
        on(mask, s) <==> exists|t: int| 0 <= t < 6 && on(#[trigger] row[t], s),
    ensures
        on(mask, s) <==> (squares[s] matches Some((d, _)) && d == c),
{
    if on(mask, s) {
        let t = choose|t: int| 0 <= t < 6 && on(#[trigger] row[t], s);
        let pt = PieceType::of_index(t);
        assert(pt.index() == t);
        assert(on(fresh[c.index()][pt.index()], s) <==> squares[s] == Some((c, pt)));
    }
    if let Some((d, pt)) = squares[s] {
        if d == c {
            assert(pt != PieceType::NoPiece);
            assert(on(fresh[c.index()][pt.index()], s) <==> squares[s] == Some((c, pt)));
            assert(on(row[pt.index()], s));
        }
    }
}

proof fn same_piece_mask(
    a: [[u64; 6]; 2],
    b: [[u64; 6]; 2],
    squares: Squares,
    c: Color,
    t: int,
)
    requires
        masks_agree(a, squares),
        masks_agree(b, squares),
        0 <= t < 6,
    ensures
        a[c.index()][t] == b[c.index()][t],
{
    let pt = PieceType::of_index(t);
    assert(pt.index() == t);
    assert forall|s: int| 0 <= s < 64 implies (#[trigger] on(a[c.index()][t], s) <==> on(
        b[c.index()][t],
        s,
    )) by {
        assert(on(a[c.index()][pt.index()], s) <==> squares[s] == Some((c, pt)));
        assert(on(b[c.index()][pt.index()], s) <==> squares[s] == Some((c, pt)));
    }
    same_members(a[c.index()][t], b[c.index()][t]);
}


/// Whether all squares hold real pieces, and kings only where the position
/// says they are.
fn squares_in_order(pos: &Position) -> (r: bool)
    ensures
        r <==> forall|s: int|
            valid(s) ==> (#[trigger] pos@.squares[s] matches Some((c, pt)) ==> pt
                != PieceType::NoPiece && (pt == PieceType::King ==> s == king_of(pos@, c))),
{
    let mut s: u8 = 0;
    while s < 64
        invariant
            s <= 64,
            forall|t: int|
                0 <= t < s ==> (#[trigger] pos@.squares[t] matches Some((c, pt)) ==> pt
                    != PieceType::NoPiece && (pt == PieceType::King ==> t == king_of(pos@, c))),
        decreases 64 - s,
    {
        if let Some((c, pt)) = pos.piece_at(s) {
            if pt == PieceType::NoPiece || (pt == PieceType::King && pos.king_square[c.idx()] != s) {
                proof {
                    assert(valid(s as int));
                    let x = pos@.squares[s as int];
                }
                return false;
            }
        }
        s += 1;
    }
    true
}

fn king_in_place(pos: &Position, color: Color) -> (r: bool)
    ensures
        r == king_at_home(pos@, color),
{
    let k = pos.king_square[color.idx()];
    k < 64 && holds_piece(pos.piece_at(k), color, PieceType::King)
}

/// Whether the board makes sense.
fn board_in_order(pos: &Position) -> (r: bool)
    ensures
        r == board_wf(pos@),
{
    pos.castling_rights < 16 && squares_in_order(pos) && king_in_place(pos, Color::White)
        && king_in_place(pos, Color::Black)
}

fn same_accumulator(a: &Accumulator, b: &Accumulator) -> (r: bool)
    ensures
        r == (*a == *b),
{
    let mut j: usize = 0;
    while j < 1536
        invariant
            j <= 1536,
            forall|i: int| 0 <= i < j ==> a.accumulation@[i] == b.accumulation@[i],
        decreases 1536 - j,
    {
        if a.accumulation[j] != b.accumulation[j] {
            return false;
        }
        j += 1;
    }
    let mut k: usize = 0;
    while k < 8
        invariant
            k <= 8,
            forall|i: int| 0 <= i < 1536 ==> a.accumulation@[i] == b.accumulation@[i],
            forall|i: int| 0 <= i < k ==> a.psqt_accumulation@[i] == b.psqt_accumulation@[i],
        decreases 8 - k,
    {
        if a.psqt_accumulation[k] != b.psqt_accumulation[k] {
            return false;
        }
        k += 1;
    }
    proof {
        assert(a.accumulation =~= b.accumulation);
        assert(a.psqt_accumulation =~= b.psqt_accumulation);
    }
    true
}

/// Whether both accumulators are those of the board.
fn accumulators_in_order(pos: &Position) -> (r: bool)
    requires
        pos.ctx.wf(),
        board_wf(pos@),
        !pos.nnue_dirty@[0],
        !pos.nnue_dirty@[1],
    ensures
        r == pos.tracks(pos.mailbox@),
{
    proof {
        assert(king_at_home(pos@, Color::White) && king_at_home(pos@, Color::Black));
        seen_kings(pos@);
    }
    match &pos.ctx.nnue {
        None => true,
        Some(evaluator) => {
            let seen = to_nnue(pos);
            let ft = &evaluator.feature_transformer;
            let white = compute_accumulator(ft, &seen, WHITE);
            let black = compute_accumulator(ft, &seen, BLACK);
            let r = same_accumulator(&pos.nnue_accum[0], &white) && same_accumulator(
                &pos.nnue_accum[1],
                &black,
            );
            proof {
                let fs0 = board_features(pos.mailbox@, 0, pos.king_square@[0] as int);
                let fs1 = board_features(pos.mailbox@, 1, pos.king_square@[1] as int);
                if r {
                    assert forall|p: int|
                        0 <= p < 2 && !#[trigger] pos.nnue_dirty@[p] implies pos.nnue_accum@[p].accumulates(
                        *ft,
                        board_features(pos.mailbox@, p, pos.king_square@[p] as int),
                    ) by {
                        assert(p == 0 || p == 1);
                    }
                }
                if pos.tracks(pos.mailbox@) {
                    assert(!pos.nnue_dirty@[0] && !pos.nnue_dirty@[1]);
                    accumulator_unique(pos.nnue_accum@[0], white, *ft, fs0);
                    accumulator_unique(pos.nnue_accum@[1], black, *ft, fs1);
                }
            }
            r
        },
    }
}

impl<'a> Position<'a> {
    /// Whether all parts of the position fit together.
    pub fn is_consistent(&self) -> (r: bool)
        requires
            self.ctx.wf(),
        ensures
            r == self.wf(),
    {
        if self.nnue_dirty[0] || self.nnue_dirty[1] || !board_in_order(self) {
            return false;
        }
        proof {
            assert(real_pieces(self.mailbox@)) by {
                assert forall|s: int| valid(s) implies (#[trigger] self.mailbox@[s] matches Some(
                    (c, pt),
                ) ==> pt != PieceType::NoPiece) by {
                    let x = self@.squares[s];
                }
            }
        }
        masks_match(self) && self.zobrist_key == compute_full(self) && accumulators_in_order(self)
    }

    /// Whether play can go on from the position: it is in order, and the side
    /// that just moved is not in check.
    pub fn is_playable(&self) -> (r: bool)
        requires
            self.ctx.wf(),
        ensures
            r == (self.wf() && playable(self@)),
    {
        self.is_consistent() && !is_in_check(self, self.side_to_move.opponent())
    }
}

} // verus!
