//! The layers of the network: fully connected layers and their activations.
use vstd::prelude::*;
use crate::arith::{clamp_i32, clamp_to, wrap32, wrap32_late, wrap8};
use crate::nnue::loader::{ReadError, Reader, eof, le32, left};
use vstd::arithmetic::div_mod::{lemma_fundamental_div_mod, lemma_mod_multiples_basic};
use vstd::arithmetic::mul::lemma_mul_is_commutative;

verus! {

/// The smallest multiple of `base` that is not below `n`.
pub open spec fn ceil_multiple(n: int, base: int) -> int {
    (n + base - 1) / base * base
}

#[inline]
pub fn ceil_to_multiple(n: usize, base: usize) -> (r: usize)
    requires
        base > 0,
        n + base <= usize::MAX,
    ensures
        r == ceil_multiple(n as int, base as int),
        r % base == 0,
        n <= r < n + base,
{
    proof {
        let q = (n + base - 1) / (base as int);
        lemma_fundamental_div_mod(n + base - 1, base as int);
        lemma_mod_multiples_basic(q, base as int);
        lemma_mul_is_commutative(q, base as int);
    }
    (n + base - 1) / base * base
}

/// Rows of weights are padded to a multiple of this.
pub const MAX_SIMD_WIDTH: usize = 32;

/// A fully connected layer. The weights are stored row by row, one row for
/// each output, each row padded at its end.
pub struct AffineLayer {
    pub input_dimensions: usize,
    pub output_dimensions: usize,
    pub padded_input_dimensions: usize,
    pub biases: Vec<i32>,
    pub weights: Vec<i8>,
}

/// The sum of the first `n` products of row `i` and the input.
pub open spec fn dot(weights: Seq<i8>, offset: int, input: Seq<u8>, n: int) -> int
    decreases n,
{
    if n <= 0 {
        0
    } else {
        dot(weights, offset, input, n - 1) + weights[offset + n - 1] * input[n - 1]
    }
}

/// The biases stored at `pos`: `n` 32-bit numbers.
pub open spec fn stored_biases(d: Seq<u8>, pos: int, n: nat) -> Seq<int> {
    Seq::new(n, |i: int| wrap32(le32(d, pos + 4 * i)))
}

/// The weights stored at `pos`: `n` signed bytes.
pub open spec fn stored_weights(d: Seq<u8>, pos: int, n: nat) -> Seq<int> {
    Seq::new(n, |i: int| wrap8(d[pos + i] as int))
}

/// Why `outs` biases and `cells` weights cannot be read at `pos`.
pub open spec fn affine_error(d: Seq<u8>, pos: int, outs: int, cells: int) -> Option<ReadError> {
    if !left(d, pos, 4 * outs) {
        Some(eof(4, d, pos + 4 * ((d.len() - pos) / 4)))
    } else if !left(d, pos + 4 * outs, cells) {
        Some(eof(1, d, d.len() as int))
    } else {
        None
    }
}

/// How many whole items of `size` bytes, at most `n`, are left at `pos`.
pub open spec fn whole_items(d: Seq<u8>, pos: int, size: int, n: int) -> int {
    if left(d, pos, size * n) {
        n
    } else {
        (d.len() - pos) / size
    }
}

/// Where reading a layer stops.
pub open spec fn affine_stop(d: Seq<u8>, pos: int, outs: int, cells: int) -> int {
    if !left(d, pos, 4 * outs) {
        pos + 4 * whole_items(d, pos, 4, outs)
    } else {
        pos + 4 * outs + whole_items(d, pos + 4 * outs, 1, cells)
    }
}

/// The parameters that are there whole have been taken over from `pos` on; the
/// others are as they were.
pub open spec fn filled_layer(new: AffineLayer, old: AffineLayer, d: Seq<u8>, pos: int) -> bool {
    let outs = old.output_dimensions as int;
    let cells = old.weights@.len() as int;
    let k = whole_items(d, pos, 4, outs);
    let n = if k < outs {
        0
    } else {
        whole_items(d, pos + 4 * outs, 1, cells)
    };
    &&& new.input_dimensions == old.input_dimensions
    &&& new.output_dimensions == old.output_dimensions
    &&& new.padded_input_dimensions == old.padded_input_dimensions
    &&& new.biases@.len() == outs
    &&& new.weights@.len() == cells
    &&& forall|j: int|
        0 <= j < outs ==> #[trigger] new.biases@[j] == if j < k {
            stored_biases(d, pos, outs as nat)[j]
        } else {
            old.biases@[j] as int
        }
    &&& forall|j: int|
        0 <= j < cells ==> #[trigger] new.weights@[j] == if j < n {
            stored_weights(d, pos + 4 * outs, cells as nat)[j]
        } else {
            old.weights@[j] as int
        }
}

impl AffineLayer {
    pub open spec fn wf(self) -> bool {
        &&& self.input_dimensions <= self.padded_input_dimensions
        &&& self.padded_input_dimensions == ceil_multiple(
            self.input_dimensions as int,
            MAX_SIMD_WIDTH as int,
        )
        &&& self.biases@.len() == self.output_dimensions
        &&& self.weights@.len() == self.output_dimensions * self.padded_input_dimensions
    }

    /// The layer has the given numbers of inputs and outputs.
    pub open spec fn shaped(self, inputs: int, outputs: int) -> bool {
        self.wf() && self.input_dimensions == inputs && self.output_dimensions == outputs
    }

    /// The layer's output for an input, in 32-bit wrapping arithmetic.
    pub open spec fn output(self, input: Seq<u8>) -> Seq<int> {
        Seq::new(
            self.output_dimensions as nat,
            |i: int|
                wrap32(
                    self.biases@[i] + dot(
                        self.weights@,
                        i * self.padded_input_dimensions,
                        input,
                        self.input_dimensions as int,
                    ),
                ),
        )
    }

    /// The layer holds the parameters stored at `pos`.
    pub open spec fn holds(self, d: Seq<u8>, pos: int) -> bool {
        &&& forall|i: int|
            0 <= i < self.output_dimensions ==> #[trigger] self.biases@[i] == stored_biases(
                d,
                pos,
                self.output_dimensions as nat,
            )[i]
        &&& forall|i: int|
            0 <= i < self.weights@.len() ==> #[trigger] self.weights@[i] == stored_weights(
                d,
                pos + 4 * self.output_dimensions,
                self.weights@.len(),
            )[i]
    }

    pub fn new_zeroed(input_dimensions: usize, output_dimensions: usize) -> (r: Self)
        requires
            input_dimensions + MAX_SIMD_WIDTH <= usize::MAX,
            output_dimensions * ceil_multiple(input_dimensions as int, MAX_SIMD_WIDTH as int)
                <= usize::MAX,
        ensures
            r.shaped(input_dimensions as int, output_dimensions as int),
            forall|i: int| 0 <= i < r.biases@.len() ==> r.biases@[i] == 0,
            forall|i: int| 0 <= i < r.weights@.len() ==> r.weights@[i] == 0,
    {
        let padded_input_dimensions = ceil_to_multiple(input_dimensions, MAX_SIMD_WIDTH);
        AffineLayer {
            input_dimensions,
            output_dimensions,
            padded_input_dimensions,
            biases: vec![0; output_dimensions],
            weights: vec![0; output_dimensions * padded_input_dimensions],
        }
    }

    /// The hash of a layer with the given number of outputs, from the hash of
    /// what stands before it.
    pub fn hash_value(output_dimensions: u32, prev_hash: u32) -> (r: u32)
        ensures
            r == affine_hash(output_dimensions, prev_hash),
    {
        let mut hash_value: u32 = 0xCC03DAE4u32.wrapping_add(output_dimensions);
        hash_value = hash_value ^ (prev_hash >> 1);
        hash_value = hash_value ^ (prev_hash << 31);
        hash_value
    }

    /// Reads the biases, then the weights.
    pub fn read_parameters(&mut self, r: &mut Reader) -> (e: Result<(), ReadError>)
        requires
            old(self).wf(),
            old(r).wf(),
        ensures
            final(r).wf(),
            final(r).data@ == old(r).data@,
            final(self).shaped(
                old(self).input_dimensions as int,
                old(self).output_dimensions as int,
            ),
            match affine_error(
                old(r).data@,
                old(r).pos as int,
                old(self).output_dimensions as int,
                old(self).weights@.len() as int,
            ) {
                Some(x) => e == Err::<(), ReadError>(x),
                None => e is Ok && final(self).holds(old(r).data@, old(r).pos as int),
            },
            filled_layer(*final(self), *old(self), old(r).data@, old(r).pos as int),
            final(r).pos == affine_stop(
                old(r).data@,
                old(r).pos as int,
                old(self).output_dimensions as int,
                old(self).weights@.len() as int,
            ),
    {
        let ghost d = r.data@;
        let ghost start = r.pos as int;
        let outs: usize = self.biases.len();
        let cells: usize = self.weights.len();
        let mut i: usize = 0;
        while i < outs
            invariant
                i <= outs,
                outs == self.output_dimensions,
                cells == self.weights@.len(),
                self.wf(),
                self.input_dimensions == old(self).input_dimensions,
                self.output_dimensions == old(self).output_dimensions,
                self.weights@.len() == old(self).weights@.len(),
                r.wf(),
                r.data@ == d,
                d == old(r).data@,
                start == old(r).pos,
                r.pos == start + 4 * i,
                forall|j: int|
                    0 <= j < i ==> #[trigger] self.biases@[j] == stored_biases(
                        d,
                        start,
                        outs as nat,
                    )[j],
                forall|j: int| i <= j < outs ==> #[trigger] self.biases@[j] == old(self).biases@[j],
                self.weights@ == old(self).weights@,
                self.padded_input_dimensions == old(self).padded_input_dimensions,
            decreases outs - i,
        {
            match r.read_i32_le() {
                Err(e) => {
                    return Err(e);
                },
                Ok(v) => {
                    self.biases[i] = v;
                },
            }
            i += 1;
        }
        let mut k: usize = 0;
        while k < cells
            invariant
                k <= cells,
                outs == self.output_dimensions,
                cells == self.weights@.len(),
                self.wf(),
                self.input_dimensions == old(self).input_dimensions,
                self.output_dimensions == old(self).output_dimensions,
                self.weights@.len() == old(self).weights@.len(),
                r.wf(),
                r.data@ == d,
                d == old(r).data@,
                start == old(r).pos,
                r.pos == start + 4 * outs + k,
                forall|j: int|
                    0 <= j < outs ==> #[trigger] self.biases@[j] == stored_biases(
                        d,
                        start,
                        outs as nat,
                    )[j],
                forall|j: int|
                    0 <= j < k ==> #[trigger] self.weights@[j] == stored_weights(
                        d,
                        start + 4 * outs,
                        cells as nat,
                    )[j],
                forall|j: int|
                    k <= j < cells ==> #[trigger] self.weights@[j] == old(self).weights@[j],
                self.padded_input_dimensions == old(self).padded_input_dimensions,
            decreases cells - k,
        {
            match r.read_i8_le() {
                Err(e) => {
                    return Err(e);
                },
                Ok(v) => {
                    self.weights[k] = v;
                },
            }
            k += 1;
        }
        Ok(())
    }

    pub fn propagate(&self, input: &[u8]) -> (r: Vec<i32>)
        requires
            self.wf(),
            input@.len() == self.input_dimensions,
        ensures
            r@.len() == self.output_dimensions,
            forall|i: int| 0 <= i < r@.len() ==> #[trigger] r@[i] == self.output(input@)[i],
    {
        let mut output: Vec<i32> = vec![0i32; self.output_dimensions];
        let mut i: usize = 0;
        while i < self.output_dimensions
            invariant
                i <= self.output_dimensions,
                self.wf(),
                input@.len() == self.input_dimensions,
                output@.len() == self.output_dimensions,
                forall|k: int| 0 <= k < i ==> #[trigger] output@[k] == self.output(input@)[k],
            decreases self.output_dimensions - i,
        {
            let ghost pad = self.padded_input_dimensions as int;
            proof {
                let outs = self.output_dimensions as int;
                assert(i * pad + pad <= outs * pad) by (nonlinear_arith)
                    requires
                        0 <= i < outs,
                        pad >= 0,
                ;
                assert(i * pad >= 0) by (nonlinear_arith)
                    requires
                        0 <= i,
                        pad >= 0,
                ;
            }
            let total: usize = self.weights.len();
            let offset: usize = i * self.padded_input_dimensions;
            let mut sum: i32 = self.biases[i];
            let mut j: usize = 0;
            while j < self.input_dimensions
                invariant
                    j <= self.input_dimensions,
                    self.wf(),
                    i < self.output_dimensions,
                    pad == self.padded_input_dimensions,
                    total == self.weights@.len(),
                    offset == i * pad,
                    offset + pad <= total,
                    input@.len() == self.input_dimensions,
                    sum == wrap32(
                        self.biases@[i as int] + dot(
                            self.weights@,
                            offset as int,
                            input@,
                            j as int,
                        ),
                    ),
                decreases self.input_dimensions - j,
            {
                let w: i32 = self.weights[offset + j] as i32;
                let x: i32 = input[j] as i32;
                proof {
                    assert(-32640 <= w * x <= 32640) by (nonlinear_arith)
                        requires
                            -128 <= w < 128,
                            0 <= x < 256,
                    ;
                    wrap32_late(
                        self.biases@[i as int] + dot(
                            self.weights@,
                            offset as int,
                            input@,
                            j as int,
                        ),
                        (w * x) as int,
                    );
                }
                sum = sum.wrapping_add(w * x);
                j += 1;
            }
            output[i] = sum;
            i += 1;
        }
        output
    }
}

pub open spec fn affine_hash(output_dimensions: u32, prev_hash: u32) -> u32 {
    vstd::wrapping::u32_specs::wrapping_add(0xCC03DAE4u32, output_dimensions) ^ (prev_hash >> 1) ^ (
    prev_hash << 31)
}

/// The activation of one number: scaled down and clamped to seven bits.
pub open spec fn clipped(v: i32, bits: u32) -> int {
    clamp_to((v >> bits) as int, 0, 127)
}

pub open spec fn squared(v: i32) -> u64 {
    (v * v) as u64
}

/// The squared activation of one number.
pub open spec fn sqr_clipped(v: i32, bits: u32) -> int {
    clamp_to((squared(v) >> ((2 * bits) as u32)) as int / 128, 0, 127)
}

pub fn clipped_relu(input: &[i32], weight_scale_bits: u32) -> (r: Vec<u8>)
    requires
        weight_scale_bits < 32,
    ensures
        r@.len() == input@.len(),
        forall|i: int|
            0 <= i < r@.len() ==> #[trigger] r@[i] == clipped(input@[i], weight_scale_bits),
{
    let mut out: Vec<u8> = Vec::new();
    let n: usize = input.len();
    let mut i: usize = 0;
    while i < n
        invariant
            i <= n,
            n == input@.len(),
            weight_scale_bits < 32,
            out@.len() == i,
            forall|j: int|
                0 <= j < i ==> #[trigger] out@[j] == clipped(input@[j], weight_scale_bits),
        decreases n - i,
    {
        let shifted: i32 = input[i] >> weight_scale_bits;
        out.push(clamp_i32(shifted, 0, 127) as u8);
        i += 1;
    }
    out
}

pub fn sqr_clipped_relu(input: &[i32], weight_scale_bits: u32) -> (r: Vec<u8>)
    requires
        weight_scale_bits < 32,
    ensures
        r@.len() == input@.len(),
        forall|i: int|
            0 <= i < r@.len() ==> #[trigger] r@[i] == sqr_clipped(input@[i], weight_scale_bits),
{
    let mut out: Vec<u8> = Vec::new();
    let n: usize = input.len();
    let mut i: usize = 0;
    while i < n
        invariant
            i <= n,
            n == input@.len(),
            weight_scale_bits < 32,
            out@.len() == i,
            forall|j: int|
                0 <= j < i ==> #[trigger] out@[j] == sqr_clipped(input@[j], weight_scale_bits),
        decreases n - i,
    {
        let v: i64 = input[i] as i64;
        proof {
            assert(0 <= v * v <= 0x4000_0000_0000_0000) by (nonlinear_arith)
                requires
                    -0x8000_0000 <= v < 0x8000_0000,
            ;
        }
        let squared: u64 = (v * v) as u64;
        let shifted: u64 = squared >> (2 * weight_scale_bits);
        let divided: u64 = shifted / 128;
        let clamped: u8 = if divided > 127 {
            127
        } else {
            divided as u8
        };
        out.push(clamped);
        i += 1;
    }
    out
}

/// The hash of an activation layer, from the hash of what stands before it.
pub fn clipped_relu_hash_value(prev_hash: u32) -> (r: u32)
    ensures
        r == vstd::wrapping::u32_specs::wrapping_add(0x538D24C7u32, prev_hash),
{
    0x538D24C7u32.wrapping_add(prev_hash)
}

} // verus!
