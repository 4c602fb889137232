//! The feature transformer: one column of weights for every input feature.
use vstd::prelude::*;
use crate::nnue::features::HASH_VALUE;
use crate::nnue::loader::{
    ReadError, Reader, filled16, filled32, leb16_row, leb32_row, tensor16, tensor16_stop,
    tensor32, tensor32_stop,
};
use vstd::slice::slice_subrange;

verus! {

/// Width of one side's accumulator.
pub const HALF_DIMENSIONS: usize = 1536;

/// Number of piece-square buckets.
pub const PSQT_BUCKETS: usize = 8;

/// Number of input features.
pub const INPUT_DIMENSIONS: usize = 22528;

pub type BiasType = i16;

pub type WeightType = i16;

pub type PsqtWeightType = i32;

/// Column `index` of `weights` holds what feature `index` adds to the
/// accumulator, row `index` of `psqt_weights` what it adds to the buckets.
pub struct FeatureTransformer {
    pub biases: Vec<BiasType>,
    pub weights: Vec<WeightType>,
    pub psqt_weights: Vec<PsqtWeightType>,
}

pub open spec fn transformer_hash() -> u32 {
    HASH_VALUE ^ 3072u32
}

/// The numbers of a row, as stored.
pub open spec fn same_numbers16(v: Seq<i16>, row: Seq<int>) -> bool {
    v.len() == row.len() && forall|i: int| 0 <= i < v.len() ==> #[trigger] v[i] == row[i]
}

pub open spec fn same_numbers32(v: Seq<i32>, row: Seq<int>) -> bool {
    v.len() == row.len() && forall|i: int| 0 <= i < v.len() ==> #[trigger] v[i] == row[i]
}

/// The three tensors of a transformer, one behind the other: their contents
/// and the position behind them, or why they cannot be read.
pub open spec fn stored_transformer(d: Seq<u8>, pos: int) -> Result<
    (Seq<int>, Seq<int>, Seq<int>, int),
    ReadError,
> {
    match tensor16(d, pos, 1536) {
        Err(e) => Err(e),
        Ok((biases, p)) => match tensor16(d, p, 34603008) {
            Err(e) => Err(e),
            Ok((weights, q)) => match tensor32(d, q, 180224) {
                Err(e) => Err(e),
                Ok((psqt, end)) => Ok((biases, weights, psqt, end)),
            },
        },
    }
}

/// What reading the three tensors from `pos` on has filled, and where it has
/// stopped: behind the last, or in the first that is wrong, the ones behind it
/// being as they were.
pub open spec fn filled_transformer(
    new: FeatureTransformer,
    old: FeatureTransformer,
    d: Seq<u8>,
    pos: int,
    stop: int,
) -> bool {
    &&& filled16(new.biases@, old.biases@, d, pos)
    &&& match tensor16(d, pos, 1536) {
        Err(_) => {
            &&& stop == tensor16_stop(d, pos, 1536)
            &&& new.weights@ == old.weights@
            &&& new.psqt_weights@ == old.psqt_weights@
        },
        Ok((_, p)) => {
            &&& filled16(new.weights@, old.weights@, d, p)
            &&& match tensor16(d, p, 34603008) {
                Err(_) => {
                    &&& stop == tensor16_stop(d, p, 34603008)
                    &&& new.psqt_weights@ == old.psqt_weights@
                },
                Ok((_, q)) => {
                    &&& filled32(new.psqt_weights@, old.psqt_weights@, d, q)
                    &&& stop == tensor32_stop(d, q, 180224)
                },
            }
        },
    }
}

impl FeatureTransformer {
    pub open spec fn wf(self) -> bool {
        &&& self.biases@.len() == 1536
        &&& self.weights@.len() == 34603008
        &&& self.psqt_weights@.len() == 180224
    }

    /// What feature `f` adds to accumulator entry `j`.
    pub open spec fn weight(self, f: int, j: int) -> int {
        self.weights@[1536 * f + j] as int
    }

    /// What feature `f` adds to bucket `k`.
    pub open spec fn psqt_weight(self, f: int, k: int) -> int {
        self.psqt_weights@[8 * f + k] as int
    }

    pub fn new_zeroed() -> (r: Self)
        ensures
            r.wf(),
            forall|i: int| 0 <= i < r.biases@.len() ==> r.biases@[i] == 0,
            forall|i: int| 0 <= i < r.weights@.len() ==> r.weights@[i] == 0,
            forall|i: int| 0 <= i < r.psqt_weights@.len() ==> r.psqt_weights@[i] == 0,
    {
        FeatureTransformer {
            biases: vec![0; HALF_DIMENSIONS],
            weights: vec![0; HALF_DIMENSIONS * INPUT_DIMENSIONS],
            psqt_weights: vec![0; INPUT_DIMENSIONS * PSQT_BUCKETS],
        }
    }

    pub fn hash_value() -> (r: u32)
        ensures
            r == transformer_hash(),
    {
        HASH_VALUE ^ ((HALF_DIMENSIONS as u32) * 2)
    }

    /// Reads the three tensors.
    pub fn read_parameters(&mut self, r: &mut Reader) -> (e: Result<(), ReadError>)
        requires
            old(self).wf(),
            old(r).wf(),
        ensures
            final(r).wf(),
            final(r).data@ == old(r).data@,
            final(self).wf(),
            filled_transformer(
                *final(self),
                *old(self),
                old(r).data@,
                old(r).pos as int,
                final(r).pos as int,
            ),
            match stored_transformer(old(r).data@, old(r).pos as int) {
                Err(x) => e == Err::<(), ReadError>(x),
                Ok((biases, weights, psqt, end)) => {
                    &&& e is Ok
                    &&& same_numbers16(final(self).biases@, biases)
                    &&& same_numbers16(final(self).weights@, weights)
                    &&& same_numbers32(final(self).psqt_weights@, psqt)
                    &&& final(r).pos == end
                },
            },
    {
        let ghost d = r.data@;
        proof {
            row16_len(d, r.pos + 21, 1536);
        }
        match r.read_leb128_i16(self.biases.as_mut_slice()) {
            Err(e) => {
                return Err(e);
            },
            Ok(_) => {},
        }
        proof {
            row16_len(d, r.pos + 21, 34603008);
        }
        match r.read_leb128_i16(self.weights.as_mut_slice()) {
            Err(e) => {
                return Err(e);
            },
            Ok(_) => {},
        }
        proof {
            row32_len(d, r.pos + 21, 180224);
        }
        r.read_leb128_i32(self.psqt_weights.as_mut_slice())
    }

    /// The weights of one feature.
    #[inline]
    pub fn weight_column(&self, index: u32) -> (r: &[WeightType])
        requires
            self.wf(),
            index < INPUT_DIMENSIONS,
        ensures
            r@.len() == HALF_DIMENSIONS,
            forall|j: int|
                0 <= j < HALF_DIMENSIONS ==> #[trigger] r@[j] == self.weight(index as int, j),
    {
        let offset: usize = HALF_DIMENSIONS * index as usize;
        slice_subrange(self.weights.as_slice(), offset, offset + HALF_DIMENSIONS)
    }

    /// The bucket weights of one feature.
    #[inline]
    pub fn psqt_row(&self, index: u32) -> (r: &[PsqtWeightType])
        requires
            self.wf(),
            index < INPUT_DIMENSIONS,
        ensures
            r@.len() == PSQT_BUCKETS,
            forall|k: int|
                0 <= k < PSQT_BUCKETS ==> #[trigger] r@[k] == self.psqt_weight(index as int, k),
    {
        let offset: usize = PSQT_BUCKETS * index as usize;
        slice_subrange(self.psqt_weights.as_slice(), offset, offset + PSQT_BUCKETS)
    }
}

/// A decoded row has as many numbers as were asked for.
proof fn row16_len(d: Seq<u8>, pos: int, n: nat)
    ensures
        leb16_row(d, pos, n) matches Some((row, _)) ==> row.len() == n,
    decreases n,
{
    if n > 0 {
        row16_len(d, pos, (n - 1) as nat);
    }
}

proof fn row32_len(d: Seq<u8>, pos: int, n: nat)
    ensures
        leb32_row(d, pos, n) matches Some((row, _)) ==> row.len() == n,
    decreases n,
{
    if n > 0 {
        row32_len(d, pos, (n - 1) as nat);
    }
}

} // verus!
