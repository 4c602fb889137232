//! Accumulators: for one perspective, the biases plus the weight columns of
//! all active features, in wrapping arithmetic.
//!
//! Because the sums wrap, adding a column and taking it away again restores an
//! accumulator exactly, and an accumulator kept up to date one feature at a
//! time equals one computed afresh.
use vstd::prelude::*;
use crate::arith::{wrap16, wrap16_late, wrap32, wrap32_late};
use crate::nnue::features::{
    DIMENSIONS, active_features, append_active_indices, feature_index, indices,
};
use crate::nnue::position::{Color, NO_PIECE, Piece, Position};
use crate::nnue::transformer::{FeatureTransformer, HALF_DIMENSIONS, PSQT_BUCKETS};

verus! {

#[derive(Clone, Copy)]
pub struct Accumulator {
    pub accumulation: [i16; 1536],
    pub psqt_accumulation: [i32; 8],
}

/// The sum of what the features add to accumulator entry `j`.
pub open spec fn weight_sum(ft: FeatureTransformer, fs: Seq<int>, j: int) -> int
    decreases fs.len(),
{
    if fs.len() == 0 {
        0
    } else {
        weight_sum(ft, fs.drop_last(), j) + ft.weight(fs.last(), j)
    }
}

/// The sum of what the features add to bucket `k`.
pub open spec fn psqt_sum(ft: FeatureTransformer, fs: Seq<int>, k: int) -> int
    decreases fs.len(),
{
    if fs.len() == 0 {
        0
    } else {
        psqt_sum(ft, fs.drop_last(), k) + ft.psqt_weight(fs.last(), k)
    }
}

/// The numbers of an accumulator, as mathematics.
pub struct Sums {
    pub entries: Seq<int>,
    pub buckets: Seq<int>,
}

/// The numbers for a row of active features.
pub open spec fn sums_of(ft: FeatureTransformer, fs: Seq<int>) -> Sums {
    Sums {
        entries: Seq::new(1536, |j: int| wrap16(ft.biases@[j] + weight_sum(ft, fs, j))),
        buckets: Seq::new(8, |k: int| wrap32(psqt_sum(ft, fs, k))),
    }
}

/// The accumulator of a row of active features holds its numbers.
pub proof fn accumulated_sums(a: Accumulator, ft: FeatureTransformer, fs: Seq<int>)
    requires
        a.accumulates(ft, fs),
    ensures
        a.sums() == sums_of(ft, fs),
{
    assert(a.sums().entries =~= sums_of(ft, fs).entries);
    assert(a.sums().buckets =~= sums_of(ft, fs).buckets);
}

impl Accumulator {
    /// The numbers that the accumulator holds.
    pub open spec fn sums(self) -> Sums {
        Sums {
            entries: Seq::new(1536, |j: int| self.accumulation@[j] as int),
            buckets: Seq::new(8, |k: int| self.psqt_accumulation@[k] as int),
        }
    }

    /// The accumulator is that of the given active features.
    pub open spec fn accumulates(self, ft: FeatureTransformer, fs: Seq<int>) -> bool {
        &&& forall|j: int|
            0 <= j < 1536 ==> #[trigger] self.accumulation@[j] == wrap16(
                ft.biases@[j] + weight_sum(ft, fs, j),
            )
        &&& forall|k: int|
            0 <= k < 8 ==> #[trigger] self.psqt_accumulation@[k] == wrap32(psqt_sum(ft, fs, k))
    }

    /// This accumulator is `old` with feature `f` added or taken away.
    pub open spec fn differs_by(
        self,
        old: Accumulator,
        ft: FeatureTransformer,
        f: int,
        add: bool,
    ) -> bool {
        &&& forall|j: int|
            0 <= j < 1536 ==> #[trigger] self.accumulation@[j] == wrap16(
                old.accumulation@[j] + if add {
                    ft.weight(f, j)
                } else {
                    -ft.weight(f, j)
                },
            )
        &&& forall|k: int|
            0 <= k < 8 ==> #[trigger] self.psqt_accumulation@[k] == wrap32(
                old.psqt_accumulation@[k] + if add {
                    ft.psqt_weight(f, k)
                } else {
                    -ft.psqt_weight(f, k)
                },
            )
    }

    /// Entry by entry the same accumulator.
    pub open spec fn same_as(self, other: Accumulator) -> bool {
        &&& self.accumulation@ =~= other.accumulation@
        &&& self.psqt_accumulation@ =~= other.psqt_accumulation@
    }

    /// An accumulator with nothing in it, not even the biases.
    pub fn new_zeroed() -> (r: Self)
        ensures
            forall|j: int| 0 <= j < 1536 ==> r.accumulation@[j] == 0,
            forall|k: int| 0 <= k < 8 ==> r.psqt_accumulation@[k] == 0,
    {
        Accumulator { accumulation: [0i16; 1536], psqt_accumulation: [0i32; 8] }
    }
}

/// Adding a feature and taking it away again, or the other way round, restores
/// the accumulator.
pub proof fn feature_round_trip(
    before: Accumulator,
    between: Accumulator,
    after: Accumulator,
    ft: FeatureTransformer,
    f: int,
    add: bool,
)
    requires
        between.differs_by(before, ft, f, add),
        after.differs_by(between, ft, f, !add),
    ensures
        after.same_as(before),
{
    assert forall|j: int| 0 <= j < 1536 implies after.accumulation@[j] == before.accumulation@[j] by {
        let w = if add {
            ft.weight(f, j)
        } else {
            -ft.weight(f, j)
        };
        wrap16_late(before.accumulation@[j] + w, -w);
        wrap16_late(before.accumulation@[j] as int, 0);
        assert(between.accumulation@[j] == wrap16(before.accumulation@[j] + w));
    }
    assert forall|k: int| 0 <= k < 8 implies after.psqt_accumulation@[k]
        == before.psqt_accumulation@[k] by {
        let w = if add {
            ft.psqt_weight(f, k)
        } else {
            -ft.psqt_weight(f, k)
        };
        wrap32_late(before.psqt_accumulation@[k] + w, -w);
        wrap32_late(before.psqt_accumulation@[k] as int, 0);
        assert(between.psqt_accumulation@[k] == wrap32(before.psqt_accumulation@[k] + w));
    }
}

/// Computes the accumulator of a position from scratch.
pub fn compute_accumulator(
    ft: &FeatureTransformer,
    pos: &Position,
    perspective: Color,
) -> (r: Accumulator)
    requires
        ft.wf(),
        pos.wf(),
        perspective < 2,
    ensures
        r.accumulates(
            *ft,
            active_features(
                pos.board@,
                perspective as int,
                pos.king_square@[perspective as int] as int,
                64,
            ),
        ),
{
    let mut acc = Accumulator::new_zeroed();
    let mut j: usize = 0;
    while j < HALF_DIMENSIONS
        invariant
            j <= 1536,
            ft.wf(),
            forall|i: int| 0 <= i < j ==> acc.accumulation@[i] == ft.biases@[i],
            forall|k: int| 0 <= k < 8 ==> acc.psqt_accumulation@[k] == 0,
        decreases HALF_DIMENSIONS - j,
    {
        acc.accumulation[j] = ft.biases[j];
        j += 1;
    }
    let mut active: Vec<u32> = Vec::new();
    append_active_indices(pos, perspective, &mut active);
    let ghost fs = active_features(
        pos.board@,
        perspective as int,
        pos.king_square@[perspective as int] as int,
        64,
    );
    proof {
        assert(indices(active@) =~= fs) by {
            assert(indices(Seq::<u32>::empty()) + fs =~= fs);
        }
        assert(acc.accumulates(*ft, fs.take(0))) by {
            assert forall|i: int| 0 <= i < 1536 implies #[trigger] acc.accumulation@[i] == wrap16(
                ft.biases@[i] + weight_sum(*ft, fs.take(0), i),
            ) by {
                wrap16_late(ft.biases@[i] as int, 0);
            }
        }
    }
    let mut i: usize = 0;
    while i < active.len()
        invariant
            i <= active@.len(),
            ft.wf(),
            indices(active@) == fs,
            forall|n: int| 0 <= n < active@.len() ==> #[trigger] active@[n] < DIMENSIONS,
            acc.accumulates(*ft, fs.take(i as int)),
        decreases active@.len() - i,
    {
        let index: u32 = active[i];
        let ghost before = acc;
        apply_feature(&mut acc, ft, index, true);
        proof {
            assert(indices(active@)[i as int] == index);
            extend_accumulates(before, acc, *ft, fs.take(i as int), index as int);
            assert(fs.take(i + 1) =~= fs.take(i as int).push(index as int));
        }
        i += 1;
    }
    proof {
        assert(fs.take(i as int) =~= fs);
    }
    acc
}

/// An accumulator of `fs` with feature `f` added is one of `fs` and `f`.
pub proof fn extend_accumulates(
    before: Accumulator,
    after: Accumulator,
    ft: FeatureTransformer,
    fs: Seq<int>,
    f: int,
)
    requires
        before.accumulates(ft, fs),
        after.differs_by(before, ft, f, true),
    ensures
        after.accumulates(ft, fs.push(f)),
{
    assert(fs.push(f).drop_last() =~= fs);
    assert forall|j: int| 0 <= j < 1536 implies #[trigger] after.accumulation@[j] == wrap16(
        ft.biases@[j] + weight_sum(ft, fs.push(f), j),
    ) by {
        wrap16_late(ft.biases@[j] + weight_sum(ft, fs, j), ft.weight(f, j));
        assert(before.accumulation@[j] == wrap16(ft.biases@[j] + weight_sum(ft, fs, j)));
    }
    assert forall|k: int| 0 <= k < 8 implies #[trigger] after.psqt_accumulation@[k] == wrap32(
        psqt_sum(ft, fs.push(f), k),
    ) by {
        wrap32_late(psqt_sum(ft, fs, k), ft.psqt_weight(f, k));
        assert(before.psqt_accumulation@[k] == wrap32(psqt_sum(ft, fs, k)));
    }
}

/// Adds one feature to an accumulator, or takes it away.
#[inline]
pub fn apply_feature(accum: &mut Accumulator, ft: &FeatureTransformer, index: u32, add: bool)
    requires
        ft.wf(),
        index < DIMENSIONS,
    ensures
        final(accum).differs_by(*old(accum), *ft, index as int, add),
{
    let col = ft.weight_column(index);
    let psqt_row = ft.psqt_row(index);
    let ghost before = *accum;
    let mut j: usize = 0;
    while j < HALF_DIMENSIONS
        invariant
            j <= 1536,
            col@.len() == 1536,
            forall|i: int| 0 <= i < 1536 ==> #[trigger] col@[i] == ft.weight(index as int, i),
            forall|i: int| j <= i < 1536 ==> accum.accumulation@[i] == before.accumulation@[i],
            forall|i: int|
                0 <= i < j ==> #[trigger] accum.accumulation@[i] == wrap16(
                    before.accumulation@[i] + if add {
                        ft.weight(index as int, i)
                    } else {
                        -ft.weight(index as int, i)
                    },
                ),
            accum.psqt_accumulation == before.psqt_accumulation,
        decreases HALF_DIMENSIONS - j,
    {
        let a: i16 = accum.accumulation[j];
        let w: i16 = col[j];
        proof {
            assert(w == ft.weight(index as int, j as int));
        }
        accum.accumulation[j] = if add {
            a.wrapping_add(w)
        } else {
            a.wrapping_sub(w)
        };
        j += 1;
    }
    let mut k: usize = 0;
    while k < PSQT_BUCKETS
        invariant
            k <= 8,
            psqt_row@.len() == 8,
            forall|i: int| 0 <= i < 8 ==> #[trigger] psqt_row@[i] == ft.psqt_weight(index as int, i),
            forall|i: int|
                k <= i < 8 ==> accum.psqt_accumulation@[i] == before.psqt_accumulation@[i],
            forall|i: int|
                0 <= i < k ==> #[trigger] accum.psqt_accumulation@[i] == wrap32(
                    before.psqt_accumulation@[i] + if add {
                        ft.psqt_weight(index as int, i)
                    } else {
                        -ft.psqt_weight(index as int, i)
                    },
                ),
            forall|i: int|
                0 <= i < 1536 ==> #[trigger] accum.accumulation@[i] == wrap16(
                    before.accumulation@[i] + if add {
                        ft.weight(index as int, i)
                    } else {
                        -ft.weight(index as int, i)
                    },
                ),
        decreases PSQT_BUCKETS - k,
    {
        let a: i32 = accum.psqt_accumulation[k];
        let w: i32 = psqt_row[k];
        proof {
            assert(w == ft.psqt_weight(index as int, k as int));
        }
        accum.psqt_accumulation[k] = if add {
            a.wrapping_add(w)
        } else {
            a.wrapping_sub(w)
        };
        k += 1;
    }
}

/// What piece `pc` on square `s` adds to entry `j`.
pub open spec fn piece_weight(
    ft: FeatureTransformer,
    perspective: int,
    ksq: int,
    s: int,
    pc: Piece,
    j: int,
) -> int {
    if pc == NO_PIECE {
        0
    } else {
        ft.weight(feature_index(perspective, s as u32, pc as int, ksq), j)
    }
}

pub open spec fn piece_psqt_weight(
    ft: FeatureTransformer,
    perspective: int,
    ksq: int,
    s: int,
    pc: Piece,
    k: int,
) -> int {
    if pc == NO_PIECE {
        0
    } else {
        ft.psqt_weight(feature_index(perspective, s as u32, pc as int, ksq), k)
    }
}

proof fn weight_sum_update(
    ft: FeatureTransformer,
    board: Seq<Piece>,
    perspective: int,
    ksq: int,
    s: int,
    pc: Piece,
    n: int,
    j: int,
)
    requires
        0 <= s < board.len(),
        n <= board.len(),
    ensures
        weight_sum(ft, active_features(board.update(s, pc), perspective, ksq, n), j) == weight_sum(
            ft,
            active_features(board, perspective, ksq, n),
            j,
        ) + if s < n {
            piece_weight(ft, perspective, ksq, s, pc, j) - piece_weight(
                ft,
                perspective,
                ksq,
                s,
                board[s],
                j,
            )
        } else {
            0
        },
    decreases n,
{
    if n > 0 {
        weight_sum_update(ft, board, perspective, ksq, s, pc, n - 1, j);
        let f = active_features(board, perspective, ksq, n - 1);
        let g = active_features(board.update(s, pc), perspective, ksq, n - 1);
        let i = feature_index(perspective, (n - 1) as u32, board[n - 1] as int, ksq);
        let k = feature_index(
            perspective,
            (n - 1) as u32,
            board.update(s, pc)[n - 1] as int,
            ksq,
        );
        assert(f.push(i).drop_last() =~= f);
        assert(g.push(k).drop_last() =~= g);
    }
}

proof fn psqt_sum_update(
    ft: FeatureTransformer,
    board: Seq<Piece>,
    perspective: int,
    ksq: int,
    s: int,
    pc: Piece,
    n: int,
    j: int,
)
    requires
        0 <= s < board.len(),
        n <= board.len(),
    ensures
        psqt_sum(ft, active_features(board.update(s, pc), perspective, ksq, n), j) == psqt_sum(
            ft,
            active_features(board, perspective, ksq, n),
            j,
        ) + if s < n {
            piece_psqt_weight(ft, perspective, ksq, s, pc, j) - piece_psqt_weight(
                ft,
                perspective,
                ksq,
                s,
                board[s],
                j,
            )
        } else {
            0
        },
    decreases n,
{
    if n > 0 {
        psqt_sum_update(ft, board, perspective, ksq, s, pc, n - 1, j);
        let f = active_features(board, perspective, ksq, n - 1);
        let g = active_features(board.update(s, pc), perspective, ksq, n - 1);
        let i = feature_index(perspective, (n - 1) as u32, board[n - 1] as int, ksq);
        let k = feature_index(
            perspective,
            (n - 1) as u32,
            board.update(s, pc)[n - 1] as int,
            ksq,
        );
        assert(f.push(i).drop_last() =~= f);
        assert(g.push(k).drop_last() =~= g);
    }
}

/// An accumulator of a board, changed by the feature of a piece that comes to
/// or leaves a square, is the accumulator of the changed board.
pub proof fn follows_board(
    before: Accumulator,
    after: Accumulator,
    ft: FeatureTransformer,
    board: Seq<Piece>,
    perspective: int,
    ksq: int,
    s: int,
    pc: Piece,
    add: bool,
)
    requires
        board.len() == 64,
        0 <= s < 64,
        pc != NO_PIECE,
        board[s] == if add {
            NO_PIECE
        } else {
            pc
        },
        before.accumulates(ft, active_features(board, perspective, ksq, 64)),
        after.differs_by(
            before,
            ft,
            feature_index(perspective, s as u32, pc as int, ksq),
            add,
        ),
    ensures
        after.accumulates(
            ft,
            active_features(
                board.update(
                    s,
                    if add {
                        pc
                    } else {
                        NO_PIECE
                    },
                ),
                perspective,
                ksq,
                64,
            ),
        ),
{
    let x = if add {
        pc
    } else {
        NO_PIECE
    };
    let f = feature_index(perspective, s as u32, pc as int, ksq);
    let old_fs = active_features(board, perspective, ksq, 64);
    let new_fs = active_features(board.update(s, x), perspective, ksq, 64);
    assert forall|j: int| 0 <= j < 1536 implies #[trigger] after.accumulation@[j] == wrap16(
        ft.biases@[j] + weight_sum(ft, new_fs, j),
    ) by {
        weight_sum_update(ft, board, perspective, ksq, s, x, 64, j);
        let w = if add {
            ft.weight(f, j)
        } else {
            -ft.weight(f, j)
        };
        assert(before.accumulation@[j] == wrap16(ft.biases@[j] + weight_sum(ft, old_fs, j)));
        wrap16_late(ft.biases@[j] + weight_sum(ft, old_fs, j), w);
    }
    assert forall|k: int| 0 <= k < 8 implies #[trigger] after.psqt_accumulation@[k] == wrap32(
        psqt_sum(ft, new_fs, k),
    ) by {
        psqt_sum_update(ft, board, perspective, ksq, s, x, 64, k);
        let w = if add {
            ft.psqt_weight(f, k)
        } else {
            -ft.psqt_weight(f, k)
        };
        assert(before.psqt_accumulation@[k] == wrap32(psqt_sum(ft, old_fs, k)));
        wrap32_late(psqt_sum(ft, old_fs, k), w);
    }
}

/// The numbers of a side add up: with no feature they are the biases, and nothing
/// in the buckets; each feature more adds its column of 1536 weights and its row of
/// eight, and counts as often as it is there, in whatever place.
pub proof fn features_add_up(ft: FeatureTransformer, fs: Seq<int>, x: int)
    requires
        ft.wf(),
    ensures
        ({
            let (none, some, more) = (
                sums_of(ft, seq![]),
                sums_of(ft, fs),
                sums_of(ft, fs.push(x)),
            );
            &&& some.entries.len() == 1536 && some.buckets.len() == 8
            &&& forall|j: int| 0 <= j < 1536 ==> #[trigger] none.entries[j] == ft.biases@[j]
            &&& forall|k: int| 0 <= k < 8 ==> #[trigger] none.buckets[k] == 0
            &&& forall|j: int|
                0 <= j < 1536 ==> (#[trigger] more.entries[j] - some.entries[j]
                    - ft.weights@[1536 * x + j]) % 0x1_0000 == 0
            &&& forall|k: int|
                0 <= k < 8 ==> (#[trigger] more.buckets[k] - some.buckets[k]
                    - ft.psqt_weights@[8 * x + k]) % 0x1_0000_0000 == 0
            &&& forall|j: int| 0 <= j < 1536 ==> -0x8000 <= #[trigger] more.entries[j] < 0x8000
            &&& forall|k: int|
                0 <= k < 8 ==> -0x8000_0000 <= #[trigger] more.buckets[k] < 0x8000_0000
        }),
{
    let none = sums_of(ft, seq![]);
    let some = sums_of(ft, fs);
    let more = sums_of(ft, fs.push(x));
    assert(fs.push(x).drop_last() =~= fs);
    assert forall|j: int| 0 <= j < 1536 implies #[trigger] none.entries[j] == ft.biases@[j] by {
        assert(weight_sum(ft, seq![], j) == 0);
    }
    assert forall|k: int| 0 <= k < 8 implies #[trigger] none.buckets[k] == 0 by {
        assert(psqt_sum(ft, seq![], k) == 0);
    }
    assert forall|j: int| 0 <= j < 1536 implies (#[trigger] more.entries[j] - some.entries[j]
        - ft.weights@[1536 * x + j]) % 0x1_0000 == 0 && -0x8000 <= more.entries[j] < 0x8000 by {
        let a = ft.biases@[j] + weight_sum(ft, fs, j);
        let w = ft.weight(x, j);
        assert(weight_sum(ft, fs.push(x), j) == weight_sum(ft, fs, j) + w);
        assert(more.entries[j] == wrap16(a + w));
        assert(some.entries[j] == wrap16(a));
    }
    assert forall|k: int| 0 <= k < 8 implies (#[trigger] more.buckets[k] - some.buckets[k]
        - ft.psqt_weights@[8 * x + k]) % 0x1_0000_0000 == 0 && -0x8000_0000 <= more.buckets[k]
        < 0x8000_0000 by {
        let a = psqt_sum(ft, fs, k);
        let w = ft.psqt_weight(x, k);
        assert(psqt_sum(ft, fs.push(x), k) == a + w);
        assert(more.buckets[k] == wrap32(a + w));
        assert(some.buckets[k] == wrap32(a));
    }
}

} // verus!
