//! The input features of the network: one for every piece on every square,
//! seen from one side and relative to that side's king.
//!
//! The board is turned so that the perspective's own side is at the bottom and
//! its king stands on the right half.
use vstd::prelude::*;
use crate::geometry::{file, rank};
use crate::nnue::position::{Color, NO_PIECE, Piece, Position, Square};

verus! {

pub const NAME: &'static str = "HalfKAv2_hm(Friend)";

/// Hash of this feature set.
pub const HASH_VALUE: u32 = 0x7f234cb8;

/// Number of piece and square combinations for one king bucket.
pub const PS_NB: u32 = 704;

/// Number of features.
pub const DIMENSIONS: u32 = 22528;

/// Number of features that can be active at the same time.
pub const MAX_ACTIVE_DIMENSIONS: usize = 32;

/// What to XOR a square with to turn the board.
pub open spec fn orientation(perspective: int, ksq: int) -> u32 {
    if perspective == 0 {
        if file(ksq) < 4 {
            7
        } else {
            0
        }
    } else {
        if file(ksq) < 4 {
            63
        } else {
            56
        }
    }
}

/// The king's bucket, counted from its own far left corner of the turned board.
pub open spec fn king_bucket(perspective: int, ksq: int) -> int {
    let r = if perspective == 0 {
        7 - rank(ksq)
    } else {
        rank(ksq)
    };
    let f = if file(ksq) < 4 {
        file(ksq)
    } else {
        7 - file(ksq)
    };
    4 * r + f
}

/// The block of 64 features of a piece: own and enemy pawns, knights, bishops,
/// rooks, queens in turn, then the two kings together.
pub open spec fn piece_block(perspective: int, pc: int) -> int {
    let kind = pc % 8;
    let owner = pc / 8;
    if kind == 0 || kind == 7 {
        0
    } else if kind == 6 {
        10
    } else {
        2 * (kind - 1) + if owner == perspective {
            0int
        } else {
            1int
        }
    }
}

/// The feature of piece `pc` on square `s` for the king on `ksq`.
pub open spec fn feature_index(perspective: int, s: u32, pc: int, ksq: int) -> int {
    (s ^ orientation(perspective, ksq)) + 64 * piece_block(perspective, pc) + PS_NB * king_bucket(
        perspective,
        ksq,
    )
}

pub proof fn feature_in_range(perspective: int, s: u32, pc: int, ksq: int)
    requires
        0 <= perspective < 2,
        s < 64,
        0 <= pc < 16,
        0 <= ksq < 64,
    ensures
        0 <= s ^ orientation(perspective, ksq) < 64,
        0 <= feature_index(perspective, s, pc, ksq) < DIMENSIONS,
{
    let o = orientation(perspective, ksq);
    assert(s ^ o < 64) by (bit_vector)
        requires
            s < 64,
            o < 64,
    ;
}

#[inline]
pub fn make_index(perspective: Color, s: Square, pc: Piece, ksq: Square) -> (r: u32)
    requires
        perspective < 2,
        s < 64,
        pc < 16,
        ksq < 64,
    ensures
        r == feature_index(perspective as int, s, pc as int, ksq as int),
        r < DIMENSIONS,
{
    proof {
        feature_in_range(perspective as int, s, pc as int, ksq as int);
    }
    let left_half = ksq % 8 < 4;
    let orient: u32 = if perspective == 0 {
        if left_half {
            7
        } else {
            0
        }
    } else {
        if left_half {
            63
        } else {
            56
        }
    };
    let kind: u32 = pc % 8;
    let block: u32 = if kind == 0 || kind == 7 {
        0
    } else if kind == 6 {
        10
    } else if pc / 8 == perspective {
        2 * (kind - 1)
    } else {
        2 * (kind - 1) + 1
    };
    let r: u32 = if perspective == 0 {
        7 - ksq / 8
    } else {
        ksq / 8
    };
    let f: u32 = if left_half {
        ksq % 8
    } else {
        7 - ksq % 8
    };
    (s ^ orient) + 64 * block + PS_NB * (4 * r + f)
}

/// The active features of the squares below `n`, in order of square.
pub open spec fn active_features(
    board: Seq<Piece>,
    perspective: int,
    ksq: int,
    n: int,
) -> Seq<int>
    decreases n,
{
    if n <= 0 {
        seq![]
    } else {
        let before = active_features(board, perspective, ksq, n - 1);
        if board[n - 1] != NO_PIECE {
            before.push(feature_index(perspective, (n - 1) as u32, board[n - 1] as int, ksq))
        } else {
            before
        }
    }
}

/// Feature numbers as mathematical integers.
pub open spec fn indices(v: Seq<u32>) -> Seq<int> {
    v.map_values(|x: u32| x as int)
}

/// Appends the features that are active in a position.
pub fn append_active_indices(pos: &Position, perspective: Color, active: &mut Vec<u32>)
    requires
        pos.wf(),
        perspective < 2,
    ensures
        indices(final(active)@) == indices(old(active)@) + active_features(
            pos.board@,
            perspective as int,
            pos.king_square@[perspective as int] as int,
            64,
        ),
        forall|i: int|
            old(active)@.len() <= i < final(active)@.len() ==> #[trigger] final(active)@[i]
                < DIMENSIONS,
{
    let ksq = pos.king_square(perspective);
    let ghost before = active@;
    proof {
        assert(indices(active@) =~= indices(before) + active_features(
            pos.board@,
            perspective as int,
            ksq as int,
            0,
        ));
    }
    let mut s: u32 = 0;
    while s < 64
        invariant
            s <= 64,
            pos.wf(),
            perspective < 2,
            ksq < 64,
            active@.len() >= before.len(),
            indices(active@) == indices(before) + active_features(
                pos.board@,
                perspective as int,
                ksq as int,
                s as int,
            ),
            forall|i: int| before.len() <= i < active@.len() ==> #[trigger] active@[i] < DIMENSIONS,
        decreases 64 - s,
    {
        let pc = pos.piece_on(s);
        if pc != NO_PIECE {
            let ghost held = active@;
            active.push(make_index(perspective, s, pc, ksq));
            proof {
                let f = feature_index(perspective as int, s, pc as int, ksq as int);
                assert(indices(active@) =~= indices(held).push(f));
                assert(indices(held).push(f) =~= indices(before) + active_features(
                    pos.board@,
                    perspective as int,
                    ksq as int,
                    s as int,
                ).push(f));
            }
        }
        s += 1;
    }
}

} // verus!
