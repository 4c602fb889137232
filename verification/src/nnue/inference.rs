//! The whole network: feature transformer, eight stacks of layers chosen by
//! the number of pieces, and the evaluation.
use vstd::prelude::*;
use crate::arith::{clamp_i32, clamp_to, div_toward_zero, low_i32, quotient, wrap16, wrap32};
use crate::nnue::accum::{
    Accumulator, Sums, accumulated_sums, compute_accumulator, psqt_sum, sums_of, weight_sum,
};
use crate::nnue::features::active_features;
use crate::nnue::layers::{
    AffineLayer, affine_error, affine_hash, affine_stop, clipped, clipped_relu,
    clipped_relu_hash_value, filled_layer, sqr_clipped, sqr_clipped_relu,
};
use crate::nnue::loader::{
    Header, ReadError, Reader, component_error, header_end, header_error, is_text_of, le32,
    read_component_header, read_header,
};
use crate::nnue::position::{BLACK, Position, WHITE, taken_squares};
use crate::nnue::transformer::{
    FeatureTransformer, HALF_DIMENSIONS, same_numbers16, same_numbers32, stored_transformer,
    transformer_hash,
};

verus! {

pub const OUTPUT_SCALE: i32 = 16;

pub const WEIGHT_SCALE_BITS: u32 = 6;

pub const LAYER_STACKS: usize = 8;

pub const FC_0_OUTPUTS: usize = 15;

pub const FC_1_OUTPUTS: usize = 32;

/// One stack of layers.
pub struct Network {
    pub fc_0: AffineLayer,
    pub fc_1: AffineLayer,
    pub fc_2: AffineLayer,
}

pub open spec fn relu_hash(prev_hash: u32) -> u32 {
    vstd::wrapping::u32_specs::wrapping_add(0x538D24C7u32, prev_hash)
}

pub open spec fn network_hash() -> u32 {
    affine_hash(
        1,
        relu_hash(affine_hash(32, relu_hash(affine_hash(16, 0xEC42E90Du32 ^ 3072u32)))),
    )
}

/// The inputs of the second layer: the squared activations of the first
/// fifteen outputs of the first, then their plain activations.
pub open spec fn second_input(fc_0_out: Seq<int>) -> Seq<u8> {
    Seq::new(
        30,
        |i: int|
            if i < 15 {
                sqr_clipped(fc_0_out[i] as i32, WEIGHT_SCALE_BITS) as u8
            } else {
                clipped(fc_0_out[i - 15] as i32, WEIGHT_SCALE_BITS) as u8
            },
    )
}

pub open spec fn third_input(fc_1_out: Seq<int>) -> Seq<u8> {
    Seq::new(32, |i: int| clipped(fc_1_out[i] as i32, WEIGHT_SCALE_BITS) as u8)
}

/// The sixteenth output of the first layer, rescaled and passed through.
pub open spec fn passed_through(v: int) -> int {
    wrap32(quotient(v * 9600, 8128))
}

/// Bytes of one stack in the file: biases and weights of the three layers.
pub const NETWORK_BYTES: usize = 25828;

/// Why a stack cannot be read at `pos`.
pub open spec fn network_error(d: Seq<u8>, pos: int) -> Option<ReadError> {
    match affine_error(d, pos, 16, 24576) {
        Some(e) => Some(e),
        None => match affine_error(d, pos + 24640, 32, 1024) {
            Some(e) => Some(e),
            None => affine_error(d, pos + 25792, 1, 32),
        },
    }
}

/// What reading a stack from `pos` on has filled, and where it has stopped:
/// behind the last layer, or in the first that is cut short, the ones behind it
/// being as they were.
pub open spec fn filled_network(
    new: Network,
    old: Network,
    d: Seq<u8>,
    pos: int,
    stop: int,
) -> bool {
    &&& filled_layer(new.fc_0, old.fc_0, d, pos)
    &&& if affine_error(d, pos, 16, 24576) is Some {
        &&& stop == affine_stop(d, pos, 16, 24576)
        &&& new.fc_1 == old.fc_1
        &&& new.fc_2 == old.fc_2
    } else {
        &&& filled_layer(new.fc_1, old.fc_1, d, pos + 24640)
        &&& if affine_error(d, pos + 24640, 32, 1024) is Some {
            &&& stop == affine_stop(d, pos + 24640, 32, 1024)
            &&& new.fc_2 == old.fc_2
        } else {
            &&& filled_layer(new.fc_2, old.fc_2, d, pos + 25792)
            &&& stop == affine_stop(d, pos + 25792, 1, 32)
        }
    }
}

impl Network {
    pub open spec fn wf(self) -> bool {
        &&& self.fc_0.shaped(1536, 16)
        &&& self.fc_1.shaped(30, 32)
        &&& self.fc_2.shaped(32, 1)
    }

    /// The stack's score for a vector of transformed features.
    pub open spec fn output(self, input: Seq<u8>) -> int {
        let fc_0_out = self.fc_0.output(input);
        let fc_1_out = self.fc_1.output(second_input(fc_0_out));
        let fc_2_out = self.fc_2.output(third_input(fc_1_out));
        wrap32(fc_2_out[0] + passed_through(fc_0_out[15]))
    }

    /// The stack holds the parameters stored at `pos`.
    pub open spec fn holds(self, d: Seq<u8>, pos: int) -> bool {
        &&& self.fc_0.holds(d, pos)
        &&& self.fc_1.holds(d, pos + 24640)
        &&& self.fc_2.holds(d, pos + 25792)
    }

    pub fn new_zeroed() -> (r: Self)
        ensures
            r.wf(),
            r.fc_0.biases@ == Seq::new(16, |i: int| 0i32),
            r.fc_0.weights@ == Seq::new(24576, |i: int| 0i8),
            r.fc_1.biases@ == Seq::new(32, |i: int| 0i32),
            r.fc_1.weights@ == Seq::new(1024, |i: int| 0i8),
            r.fc_2.biases@ == Seq::new(1, |i: int| 0i32),
            r.fc_2.weights@ == Seq::new(32, |i: int| 0i8),
    {
        let r = Network {
            fc_0: AffineLayer::new_zeroed(HALF_DIMENSIONS, FC_0_OUTPUTS + 1),
            fc_1: AffineLayer::new_zeroed(FC_0_OUTPUTS * 2, FC_1_OUTPUTS),
            fc_2: AffineLayer::new_zeroed(FC_1_OUTPUTS, 1),
        };
        proof {
            assert(r.fc_0.biases@ =~= Seq::new(16, |i: int| 0i32));
            assert(r.fc_0.weights@ =~= Seq::new(24576, |i: int| 0i8));
            assert(r.fc_1.biases@ =~= Seq::new(32, |i: int| 0i32));
            assert(r.fc_1.weights@ =~= Seq::new(1024, |i: int| 0i8));
            assert(r.fc_2.biases@ =~= Seq::new(1, |i: int| 0i32));
            assert(r.fc_2.weights@ =~= Seq::new(32, |i: int| 0i8));
        }
        r
    }

    pub fn hash_value() -> (r: u32)
        ensures
            r == network_hash(),
    {
        let mut hash_value: u32 = 0xEC42E90Du32;
        hash_value = hash_value ^ ((HALF_DIMENSIONS as u32) * 2);
        hash_value = AffineLayer::hash_value((FC_0_OUTPUTS + 1) as u32, hash_value);
        hash_value = clipped_relu_hash_value(hash_value);
        hash_value = AffineLayer::hash_value(FC_1_OUTPUTS as u32, hash_value);
        hash_value = clipped_relu_hash_value(hash_value);
        hash_value = AffineLayer::hash_value(1, hash_value);
        hash_value
    }

    pub fn read_parameters(&mut self, r: &mut Reader) -> (e: Result<(), ReadError>)
        requires
            old(self).wf(),
            old(r).wf(),
        ensures
            final(r).wf(),
            final(r).data@ == old(r).data@,
            final(self).wf(),
            match network_error(old(r).data@, old(r).pos as int) {
                Some(x) => e == Err::<(), ReadError>(x),
                None => {
                    &&& e is Ok
                    &&& final(self).holds(old(r).data@, old(r).pos as int)
                    &&& final(r).pos == old(r).pos + NETWORK_BYTES
                },
            },
            filled_network(
                *final(self),
                *old(self),
                old(r).data@,
                old(r).pos as int,
                final(r).pos as int,
            ),
    {
        match self.fc_0.read_parameters(r) {
            Err(e) => {
                return Err(e);
            },
            Ok(_) => {},
        }
        match self.fc_1.read_parameters(r) {
            Err(e) => {
                return Err(e);
            },
            Ok(_) => {},
        }
        self.fc_2.read_parameters(r)
    }

    /// The score of a vector of transformed features.
    pub fn propagate(&self, transformed_features: &[u8]) -> (r: i32)
        requires
            self.wf(),
            transformed_features@.len() == HALF_DIMENSIONS,
        ensures
            r == self.output(transformed_features@),
    {
        let fc_0_out = self.fc_0.propagate(transformed_features);
        let ghost out_0 = self.fc_0.output(transformed_features@);
        let ac_sqr_0_out = sqr_clipped_relu(fc_0_out.as_slice(), WEIGHT_SCALE_BITS);
        let ac_0_out = clipped_relu(fc_0_out.as_slice(), WEIGHT_SCALE_BITS);
        let mut combined: Vec<u8> = Vec::new();
        let mut i: usize = 0;
        while i < FC_0_OUTPUTS
            invariant
                i <= 15,
                ac_sqr_0_out@.len() == 16,
                combined@.len() == i,
                forall|j: int| 0 <= j < i ==> combined@[j] == ac_sqr_0_out@[j],
            decreases FC_0_OUTPUTS - i,
        {
            combined.push(ac_sqr_0_out[i]);
            i += 1;
        }
        let mut k: usize = 0;
        while k < FC_0_OUTPUTS
            invariant
                k <= 15,
                ac_0_out@.len() == 16,
                combined@.len() == 15 + k,
                forall|j: int| 0 <= j < 15 ==> combined@[j] == ac_sqr_0_out@[j],
                forall|j: int| 15 <= j < 15 + k ==> combined@[j] == ac_0_out@[j - 15],
            decreases FC_0_OUTPUTS - k,
        {
            combined.push(ac_0_out[k]);
            k += 1;
        }
        proof {
            assert(combined@ =~= second_input(out_0)) by {
                assert forall|j: int| 0 <= j < 30 implies combined@[j] == second_input(out_0)[j] by {
                    let m = if j < 15 {
                        j
                    } else {
                        j - 15
                    };
                    assert(fc_0_out@[m] == out_0[m]);
                }
            }
        }
        let fc_1_out = self.fc_1.propagate(combined.as_slice());
        let ac_1_out = clipped_relu(fc_1_out.as_slice(), WEIGHT_SCALE_BITS);
        let ghost out_1 = self.fc_1.output(combined@);
        proof {
            assert(ac_1_out@ =~= third_input(out_1)) by {
                assert forall|j: int| 0 <= j < 32 implies ac_1_out@[j] == third_input(out_1)[j] by {
                    assert(fc_1_out@[j] == out_1[j]);
                }
            }
        }
        let fc_2_out = self.fc_2.propagate(ac_1_out.as_slice());
        let extra: i32 = fc_0_out[FC_0_OUTPUTS];
        let fwd_out: i32 = low_i32(div_toward_zero(extra as i64 * 9600, 8128));
        proof {
            assert(fc_0_out@[15] == out_0[15]);
            assert(fc_2_out@[0] == self.fc_2.output(ac_1_out@)[0]);
        }
        fc_2_out[0].wrapping_add(fwd_out)
    }
}

/// A loaded network.
pub struct NnueEvaluator {
    pub feature_transformer: FeatureTransformer,
    pub networks: Vec<Network>,
    pub description: String,
}

/// Why a network file was refused.
#[derive(Copy, Clone, Debug, PartialEq, Eq, Structural)]
pub enum LoadError {
    Header(ReadError),
    HashMismatch { found: u32, expected: u32 },
    TransformerHeader(ReadError),
    TransformerParameters(ReadError),
    NetworkHeader(usize, ReadError),
    NetworkParameters(usize, ReadError),
    TrailingBytes(usize),
}

/// Where the stack number `i` begins (its component header), if the first
/// begins at `pos`.
pub open spec fn network_at(pos: int, i: int) -> int {
    pos + 25832 * i
}

/// The first problem among the first `n` stacks from `pos` on.
pub open spec fn networks_problem(d: Seq<u8>, pos: int, n: int) -> Option<LoadError>
    decreases n,
{
    if n <= 0 {
        None
    } else {
        match networks_problem(d, pos, n - 1) {
            Some(e) => Some(e),
            None => match component_error(d, network_at(pos, n - 1), network_hash()) {
                Some(e) => Some(LoadError::NetworkHeader((n - 1) as usize, e)),
                None => match network_error(d, network_at(pos, n - 1) + 4) {
                    Some(e) => Some(LoadError::NetworkParameters((n - 1) as usize, e)),
                    None => None,
                },
            },
        }
    }
}

pub open spec fn combined_hash() -> u32 {
    transformer_hash() ^ network_hash()
}

/// Where the feature transformer's parameters begin.
pub open spec fn transformer_at(d: Seq<u8>) -> int {
    header_end(d, 0) + 4
}

/// The first problem of a network file.
pub open spec fn load_problem(d: Seq<u8>) -> Option<LoadError> {
    match header_error(d, 0) {
        Some(e) => Some(LoadError::Header(e)),
        None => if le32(d, 4) != combined_hash() {
            Some(LoadError::HashMismatch { found: le32(d, 4) as u32, expected: combined_hash() })
        } else {
            match component_error(d, header_end(d, 0), transformer_hash()) {
                Some(e) => Some(LoadError::TransformerHeader(e)),
                None => match stored_transformer(d, transformer_at(d)) {
                    Err(e) => Some(LoadError::TransformerParameters(e)),
                    Ok((_, _, _, end)) => match networks_problem(d, end, 8) {
                        Some(e) => Some(e),
                        None => if network_at(end, 8) < d.len() {
                            Some(
                                LoadError::TrailingBytes((d.len() - network_at(end, 8)) as usize),
                            )
                        } else {
                            None
                        },
                    },
                },
            }
        },
    }
}

/// The stack that evaluates positions with `pieces` pieces.
pub open spec fn bucket_of(pieces: int) -> int {
    if pieces == 0 {
        0
    } else {
        (pieces - 1) / 4
    }
}

/// One transformed feature: the product of two clamped accumulator entries.
pub open spec fn squeezed(acc: Sums, j: int) -> int {
    clamp_to(acc.entries[j], 0, 127) * clamp_to(acc.entries[j + 768], 0, 127) / 128
}

/// The transformed features: those of the side to move, then the other's.
pub open spec fn transformed(us: Sums, them: Sums) -> Seq<u8> {
    Seq::new(
        1536,
        |j: int|
            if j < 768 {
                squeezed(us, j) as u8
            } else {
                squeezed(them, j - 768) as u8
            },
    )
}

/// Half the difference of the two sides' buckets.
pub open spec fn psqt_score(us: Sums, them: Sums, bucket: int) -> int {
    quotient(wrap32(us.buckets[bucket] - them.buckets[bucket]), 2)
}

/// The features of a position that one side sees.
pub open spec fn position_features(pos: Position, perspective: int) -> Seq<int> {
    active_features(pos.board@, perspective, pos.king_square@[perspective] as int, 64)
}

impl NnueEvaluator {
    pub open spec fn wf(self) -> bool {
        &&& self.feature_transformer.wf()
        &&& self.networks@.len() == 8
        &&& forall|i: int| 0 <= i < 8 ==> (#[trigger] self.networks@[i]).wf()
    }

    /// The score for the side to move, from the accumulators of both sides.
    pub open spec fn score(self, us: Sums, them: Sums, pieces: int) -> int {
        let bucket = bucket_of(pieces);
        quotient(
            wrap32(
                psqt_score(us, them, bucket) + self.networks@[bucket].output(transformed(us, them)),
            ),
            16,
        )
    }

    /// The score of a position for its side to move.
    pub open spec fn evaluation(self, pos: Position) -> int {
        let ft = self.feature_transformer;
        let white = sums_of(ft, position_features(pos, 0));
        let black = sums_of(ft, position_features(pos, 1));
        let pieces = taken_squares(pos.board@, 64).len() as int;
        if pos.side_to_move == 0 {
            self.score(white, black, pieces)
        } else {
            self.score(black, white, pieces)
        }
    }

    pub fn combined_hash_value() -> (r: u32)
        ensures
            r == combined_hash(),
    {
        FeatureTransformer::hash_value() ^ Network::hash_value()
    }

    /// Reads a network file. A good file is refused as soon as it is cut short,
    /// has anything behind it, or has another version or hash: see
    /// [`crate::nnue::refusal::good_file_is_tight`].
    pub fn load_from_bytes(data: &[u8]) -> (r: Result<NnueEvaluator, LoadError>)
        ensures
            match load_problem(data@) {
                Some(e) => r matches Err(f) && f == e,
                None => {
                    let d = data@;
                    let (biases, weights, psqt, end) = stored_transformer(
                        d,
                        transformer_at(d),
                    )->Ok_0;
                    &&& r matches Ok(ev)
                    &&& ev.wf()
                    &&& is_text_of(ev.description@, d.subrange(12, header_end(d, 0)))
                    &&& same_numbers16(ev.feature_transformer.biases@, biases)
                    &&& same_numbers16(ev.feature_transformer.weights@, weights)
                    &&& same_numbers32(ev.feature_transformer.psqt_weights@, psqt)
                    &&& forall|i: int|
                        0 <= i < 8 ==> (#[trigger] ev.networks@[i]).holds(
                            d,
                            network_at(end, i) + 4,
                        )
                },
            },
    {
        let mut r = Reader::new(data);
        let ghost d = data@;
        let header = match read_header(&mut r) {
            Err(e) => {
                return Err(LoadError::Header(e));
            },
            Ok(h) => h,
        };
        let expected = Self::combined_hash_value();
        if header.hash_value != expected {
            return Err(LoadError::HashMismatch { found: header.hash_value, expected });
        }
        let mut feature_transformer = FeatureTransformer::new_zeroed();
        match read_component_header(&mut r, FeatureTransformer::hash_value()) {
            Err(e) => {
                return Err(LoadError::TransformerHeader(e));
            },
            Ok(_) => {},
        }
        match feature_transformer.read_parameters(&mut r) {
            Err(e) => {
                return Err(LoadError::TransformerParameters(e));
            },
            Ok(_) => {},
        }
        let ghost end = r.pos as int;
        let mut networks: Vec<Network> = Vec::new();
        let mut i: usize = 0;
        while i < LAYER_STACKS
            invariant
                i <= 8,
                r.wf(),
                r.data@ == d,
                r.pos == network_at(end, i as int),
                networks@.len() == i,
                networks_problem(d, end, i as int) is None,
                forall|k: int|
                    0 <= k < i ==> (#[trigger] networks@[k]).wf() && networks@[k].holds(
                        d,
                        network_at(end, k) + 4,
                    ),
                d == data@,
                header_error(d, 0) is None,
                le32(d, 4) == combined_hash(),
                component_error(d, header_end(d, 0), transformer_hash()) is None,
                stored_transformer(d, transformer_at(d)) matches Ok((_, _, _, e)) && e == end,
            decreases LAYER_STACKS - i,
        {
            proof {
                networks_problem_first(d, end, i + 1, 8);
            }
            match read_component_header(&mut r, Network::hash_value()) {
                Err(e) => {
                    return Err(LoadError::NetworkHeader(i, e));
                },
                Ok(_) => {},
            }
            let mut net = Network::new_zeroed();
            match net.read_parameters(&mut r) {
                Err(e) => {
                    return Err(LoadError::NetworkParameters(i, e));
                },
                Ok(_) => {},
            }
            networks.push(net);
            i += 1;
        }
        if !r.at_eof() {
            return Err(LoadError::TrailingBytes(r.remaining()));
        }
        Ok(NnueEvaluator { feature_transformer, networks, description: header.description })
    }

    /// The transformed features and the bucket score of a pair of accumulators.
    fn transform_from_accumulators(
        &self,
        acc_white: &Accumulator,
        acc_black: &Accumulator,
        side_to_move: usize,
        bucket: usize,
    ) -> (r: (i32, [u8; 1536]))
        requires
            side_to_move < 2,
            bucket < 8,
        ensures
            ({
                let us = if side_to_move == 0 {
                    *acc_white
                } else {
                    *acc_black
                };
                let them = if side_to_move == 0 {
                    *acc_black
                } else {
                    *acc_white
                };
                &&& r.0 == psqt_score(us.sums(), them.sums(), bucket as int)
                &&& r.1@ == transformed(us.sums(), them.sums())
            }),
    {
        let (us, them) = if side_to_move == 0 {
            (acc_white, acc_black)
        } else {
            (acc_black, acc_white)
        };
        let difference: i32 = us.psqt_accumulation[bucket].wrapping_sub(
            them.psqt_accumulation[bucket],
        );
        let psqt: i32 = div_toward_zero(difference as i64, 2) as i32;
        let mut output: [u8; 1536] = [0u8; 1536];
        let mut p: usize = 0;
        while p < 2
            invariant
                p <= 2,
                forall|i: int| 0 <= i < 768 * p ==> #[trigger] output@[i] == transformed(us.sums(), them.sums())[i],
            decreases 2 - p,
        {
            let offset: usize = 768 * p;
            let acc = if p == 0 {
                us
            } else {
                them
            };
            let mut j: usize = 0;
            while j < 768
                invariant
                    j <= 768,
                    p < 2,
                    offset == 768 * p,
                    *acc == if p == 0 {
                        *us
                    } else {
                        *them
                    },
                    forall|i: int|
                        0 <= i < offset + j ==> #[trigger] output@[i] == transformed(us.sums(), them.sums())[i],
                decreases 768 - j,
            {
                let sum0: i32 = clamp_i32(acc.accumulation[j] as i32, 0, 127);
                let sum1: i32 = clamp_i32(acc.accumulation[j + 768] as i32, 0, 127);
                proof {
                    assert(0 <= sum0 * sum1 <= 16129) by (nonlinear_arith)
                        requires
                            0 <= sum0 <= 127,
                            0 <= sum1 <= 127,
                    ;
                }
                output[offset + j] = ((sum0 * sum1) / 128) as u8;
                j += 1;
            }
            p += 1;
        }
        proof {
            assert(output@ =~= transformed(us.sums(), them.sums()));
        }
        (psqt, output)
    }

    /// The score of a position for its side to move. It stays the same when the
    /// board is turned over and the colours are exchanged: see
    /// [`crate::nnue::mirror::flip_keeps_score`].
    pub fn evaluate(&self, pos: &Position) -> (r: i32)
        requires
            self.wf(),
            pos.wf(),
            taken_squares(pos.board@, 64).len() <= 32,
        ensures
            r == self.evaluation(*pos),
    {
        let acc_white = compute_accumulator(&self.feature_transformer, pos, WHITE);
        let acc_black = compute_accumulator(&self.feature_transformer, pos, BLACK);
        proof {
            accumulators_give_evaluation(*self, *pos, acc_white, acc_black);
        }
        self.evaluate_with_accumulators(
            &acc_white,
            &acc_black,
            pos.side_to_move,
            pos.count_all_pieces(),
        )
    }

    /// The score for the side to move, from accumulators that are kept up to
    /// date elsewhere. From the accumulators of a position it is the score that
    /// [`NnueEvaluator::evaluate`] gives: see [`accumulators_give_evaluation`].
    pub fn evaluate_with_accumulators(
        &self,
        accum_white: &Accumulator,
        accum_black: &Accumulator,
        side_to_move: u32,
        piece_count: u32,
    ) -> (r: i32)
        requires
            self.wf(),
            side_to_move < 2,
            piece_count <= 32,
        ensures
            r == if side_to_move == 0 {
                self.score(accum_white.sums(), accum_black.sums(), piece_count as int)
            } else {
                self.score(accum_black.sums(), accum_white.sums(), piece_count as int)
            },
    {
        let bucket: usize = if piece_count == 0 {
            0
        } else {
            ((piece_count - 1) / 4) as usize
        };
        let (psqt, transformed_features) = self.transform_from_accumulators(
            accum_white,
            accum_black,
            side_to_move as usize,
            bucket,
        );
        let positional = self.networks[bucket].propagate(transformed_features.as_slice());
        scale_down(psqt, positional)
    }
}

/// The sum of the two parts of the score, in the scale of the caller.
fn scale_down(psqt: i32, positional: i32) -> (r: i32)
    ensures
        r == quotient(wrap32(psqt + positional), 16),
{
    let sum: i32 = psqt.wrapping_add(positional);
    div_toward_zero(sum as i64, OUTPUT_SCALE as i64) as i32
}

proof fn networks_problem_first(d: Seq<u8>, pos: int, k: int, n: int)
    requires
        k <= n,
    ensures
        networks_problem(d, pos, k) matches Some(e) ==> networks_problem(d, pos, n) == Some(e),
    decreases n - k,
{
    if k < n {
        networks_problem_first(d, pos, k, n - 1);
    }
}

/// The score from a position's accumulators, with its side to move and its count
/// of pieces, is the position's score.
pub proof fn accumulators_give_evaluation(
    ev: NnueEvaluator,
    pos: Position,
    white: Accumulator,
    black: Accumulator,
)
    requires
        white.accumulates(ev.feature_transformer, position_features(pos, 0)),
        black.accumulates(ev.feature_transformer, position_features(pos, 1)),
    ensures
        ev.evaluation(pos) == if pos.side_to_move == 0 {
            ev.score(white.sums(), black.sums(), taken_squares(pos.board@, 64).len() as int)
        } else {
            ev.score(black.sums(), white.sums(), taken_squares(pos.board@, 64).len() as int)
        },
{
    accumulated_sums(white, ev.feature_transformer, position_features(pos, 0));
    accumulated_sums(black, ev.feature_transformer, position_features(pos, 1));
}

/// There is one accumulator for a set of active features.
pub proof fn accumulator_unique(
    a: Accumulator,
    b: Accumulator,
    ft: FeatureTransformer,
    fs: Seq<int>,
)
    requires
        a.accumulates(ft, fs),
        b.accumulates(ft, fs),
    ensures
        a == b,
{
    assert forall|j: int| 0 <= j < 1536 implies a.accumulation@[j] == b.accumulation@[j] by {
        assert(a.accumulation@[j] == wrap16(ft.biases@[j] + weight_sum(ft, fs, j)));
        assert(b.accumulation@[j] == wrap16(ft.biases@[j] + weight_sum(ft, fs, j)));
    }
    assert forall|k: int| 0 <= k < 8 implies a.psqt_accumulation@[k] == b.psqt_accumulation@[k] by {
        assert(a.psqt_accumulation@[k] == wrap32(psqt_sum(ft, fs, k)));
        assert(b.psqt_accumulation@[k] == wrap32(psqt_sum(ft, fs, k)));
    }
    assert(a.accumulation =~= b.accumulation);
    assert(a.psqt_accumulation =~= b.psqt_accumulation);
}

} // verus!
