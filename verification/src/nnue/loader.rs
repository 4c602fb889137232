//! Reading the network file: fixed-width little-endian numbers, LEB128 tensors
//! and the headers.
use vstd::prelude::*;
use crate::arith::{low_i16, low_i32, low_i8, wrap16, wrap32, wrap8};
use vstd::slice::slice_subrange;

verus! {

/// Version of the network file format.
pub const VERSION: u32 = 0x7AF32F20;

/// The seventeen bytes `COMPRESSED_LEB128`, which stand before each tensor.
pub const LEB128_MAGIC_STRING: [u8; 17] = [
    67, 79, 77, 80, 82, 69, 83, 83, 69, 68, 95, 76, 69, 66, 49, 50, 56,
];

/// Why a network file could not be read.
#[derive(Copy, Clone, Debug, PartialEq, Eq, Structural)]
pub enum ReadError {
    UnexpectedEof { expected: usize, remaining: usize },
    MissingMagic,
    BadVersion { found: u32 },
    ComponentHash { found: u32, wanted: u32 },
}

/// A cursor over the bytes of a file.
pub struct Reader<'a> {
    pub data: &'a [u8],
    pub pos: usize,
}

pub open spec fn eof(n: int, d: Seq<u8>, pos: int) -> ReadError {
    ReadError::UnexpectedEof { expected: n as usize, remaining: (d.len() - pos) as usize }
}

pub open spec fn le16(d: Seq<u8>, pos: int) -> int {
    d[pos] + 0x100 * d[pos + 1]
}

pub open spec fn le32(d: Seq<u8>, pos: int) -> int {
    d[pos] + 0x100 * d[pos + 1] + 0x1_0000 * d[pos + 2] + 0x100_0000 * d[pos + 3]
}

/// `n` bytes are left at `pos`.
pub open spec fn left(d: Seq<u8>, pos: int, n: int) -> bool {
    d.len() - pos >= n
}

/// The reader has moved over `n` bytes of the same data.
pub open spec fn advanced(new: Reader, old: Reader, n: int) -> bool {
    new.data@ == old.data@ && new.pos == old.pos + n
}

impl<'a> Reader<'a> {
    /// The cursor is inside the data or at its end.
    pub open spec fn wf(self) -> bool {
        self.pos <= self.data@.len()
    }

    pub fn new(data: &'a [u8]) -> (r: Self)
        ensures
            r.wf(),
            r.data@ == data@,
            r.pos == 0,
    {
        Reader { data, pos: 0 }
    }

    pub fn at_eof(&self) -> (r: bool)
        ensures
            r == (self.pos >= self.data@.len()),
    {
        self.pos >= self.data.len()
    }

    pub fn remaining(&self) -> (r: usize)
        ensures
            r == if self.pos <= self.data@.len() {
                self.data@.len() - self.pos
            } else {
                0
            },
    {
        if self.pos <= self.data.len() {
            self.data.len() - self.pos
        } else {
            0
        }
    }

    fn read_exact_bytes(&mut self, n: usize) -> (r: Result<&'a [u8], ReadError>)
        requires
            old(self).wf(),
        ensures
            final(self).wf(),
            left(old(self).data@, old(self).pos as int, n as int) ==> {
                &&& advanced(*final(self), *old(self), n as int)
                &&& r matches Ok(s) && s@ == old(self).data@.subrange(
                    old(self).pos as int,
                    old(self).pos + n,
                )
            },
            !left(old(self).data@, old(self).pos as int, n as int) ==> {
                &&& advanced(*final(self), *old(self), 0)
                &&& r == Err::<&'a [u8], ReadError>(
                    eof(n as int, old(self).data@, old(self).pos as int),
                )
            },
    {
        let total: usize = self.data.len();
        if total - self.pos < n {
            return Err(ReadError::UnexpectedEof { expected: n, remaining: self.remaining() });
        }
        let slice = slice_subrange(self.data, self.pos, self.pos + n);
        self.pos = self.pos + n;
        Ok(slice)
    }

    pub fn read_u32_le(&mut self) -> (r: Result<u32, ReadError>)
        requires
            old(self).wf(),
        ensures
            final(self).wf(),
            left(old(self).data@, old(self).pos as int, 4) ==> {
                &&& advanced(*final(self), *old(self), 4)
                &&& r == Ok::<u32, ReadError>(le32(old(self).data@, old(self).pos as int) as u32)
            },
            !left(old(self).data@, old(self).pos as int, 4) ==> {
                &&& advanced(*final(self), *old(self), 0)
                &&& r == Err::<u32, ReadError>(eof(4, old(self).data@, old(self).pos as int))
            },
    {
        match self.read_exact_bytes(4) {
            Err(e) => Err(e),
            Ok(b) => Ok(
                b[0] as u32 + 0x100 * (b[1] as u32) + 0x1_0000 * (b[2] as u32) + 0x100_0000 * (
                b[3] as u32),
            ),
        }
    }

    pub fn read_i16_le(&mut self) -> (r: Result<i16, ReadError>)
        requires
            old(self).wf(),
        ensures
            final(self).wf(),
            left(old(self).data@, old(self).pos as int, 2) ==> {
                &&& advanced(*final(self), *old(self), 2)
                &&& r matches Ok(v) && v == wrap16(le16(old(self).data@, old(self).pos as int))
            },
            !left(old(self).data@, old(self).pos as int, 2) ==> {
                &&& advanced(*final(self), *old(self), 0)
                &&& r == Err::<i16, ReadError>(eof(2, old(self).data@, old(self).pos as int))
            },
    {
        match self.read_exact_bytes(2) {
            Err(e) => Err(e),
            Ok(b) => Ok(low_i16(b[0] as u32 + 0x100 * (b[1] as u32))),
        }
    }

    pub fn read_i32_le(&mut self) -> (r: Result<i32, ReadError>)
        requires
            old(self).wf(),
        ensures
            final(self).wf(),
            left(old(self).data@, old(self).pos as int, 4) ==> {
                &&& advanced(*final(self), *old(self), 4)
                &&& r matches Ok(v) && v == wrap32(le32(old(self).data@, old(self).pos as int))
            },
            !left(old(self).data@, old(self).pos as int, 4) ==> {
                &&& advanced(*final(self), *old(self), 0)
                &&& r == Err::<i32, ReadError>(eof(4, old(self).data@, old(self).pos as int))
            },
    {
        match self.read_u32_le() {
            Err(e) => Err(e),
            Ok(v) => Ok(low_i32(v as i64)),
        }
    }

    pub fn read_i8_le(&mut self) -> (r: Result<i8, ReadError>)
        requires
            old(self).wf(),
        ensures
            final(self).wf(),
            left(old(self).data@, old(self).pos as int, 1) ==> {
                &&& advanced(*final(self), *old(self), 1)
                &&& r matches Ok(v) && v == wrap8(old(self).data@[old(self).pos as int] as int)
            },
            !left(old(self).data@, old(self).pos as int, 1) ==> {
                &&& advanced(*final(self), *old(self), 0)
                &&& r == Err::<i8, ReadError>(eof(1, old(self).data@, old(self).pos as int))
            },
    {
        match self.read_exact_bytes(1) {
            Err(e) => Err(e),
            Ok(b) => Ok(low_i8(b[0])),
        }
    }
}

/// One step of LEB128 decoding: seven more bits at the given shift, which
/// counts modulo the width of the word.
pub open spec fn leb_bits32(word: u32, byte: u8, shift: u32) -> u32 {
    word | (((byte & 0x7f) as u32) << (shift % 32))
}

pub open spec fn leb_bits64(word: u64, byte: u8, shift: u32) -> u64 {
    word | (((byte & 0x7f) as u64) << (shift % 64))
}

/// The signed number of a finished word: if the last byte has its sign bit and
/// the number is narrower than the target, the high bits are ones.
pub open spec fn leb_finish16(word: u32, byte: u8, shift: u32) -> int {
    if shift >= 16 || byte & 0x40 == 0 {
        wrap16(word as int)
    } else {
        wrap16((word | !(((1u32 << shift) - 1) as u32)) as int)
    }
}

pub open spec fn leb_finish32(word: u64, byte: u8, shift: u32) -> int {
    if shift >= 32 || byte & 0x40 == 0 {
        wrap32((word % 0x1_0000_0000) as int)
    } else {
        wrap32(((word | !(((1u64 << shift) - 1) as u64)) % 0x1_0000_0000) as int)
    }
}

/// The LEB128 number at `pos` and the position behind it; nothing if the data
/// end inside the number.
pub open spec fn leb16(d: Seq<u8>, pos: int, word: u32, shift: u32) -> Option<(int, int)>
    decreases d.len() - pos,
{
    if pos < 0 || pos >= d.len() {
        None
    } else {
        let w = leb_bits32(word, d[pos], shift);
        let s = vstd::wrapping::u32_specs::wrapping_add(shift, 7);
        if d[pos] & 0x80 == 0 {
            Some((leb_finish16(w, d[pos], s), pos + 1))
        } else {
            leb16(d, pos + 1, w, s)
        }
    }
}

pub open spec fn leb32(d: Seq<u8>, pos: int, word: u64, shift: u32) -> Option<(int, int)>
    decreases d.len() - pos,
{
    if pos < 0 || pos >= d.len() {
        None
    } else {
        let w = leb_bits64(word, d[pos], shift);
        let s = vstd::wrapping::u32_specs::wrapping_add(shift, 7);
        if d[pos] & 0x80 == 0 {
            Some((leb_finish32(w, d[pos], s), pos + 1))
        } else {
            leb32(d, pos + 1, w, s)
        }
    }
}

/// `n` LEB128 numbers one after the other, and the position behind them.
pub open spec fn leb16_row(d: Seq<u8>, pos: int, n: nat) -> Option<(Seq<int>, int)>
    decreases n,
{
    if n == 0 {
        Some((seq![], pos))
    } else {
        match leb16_row(d, pos, (n - 1) as nat) {
            None => None,
            Some((row, p)) => match leb16(d, p, 0, 0) {
                None => None,
                Some((v, q)) => Some((row.push(v), q)),
            },
        }
    }
}

pub open spec fn leb32_row(d: Seq<u8>, pos: int, n: nat) -> Option<(Seq<int>, int)>
    decreases n,
{
    if n == 0 {
        Some((seq![], pos))
    } else {
        match leb32_row(d, pos, (n - 1) as nat) {
            None => None,
            Some((row, p)) => match leb32(d, p, 0, 0) {
                None => None,
                Some((v, q)) => Some((row.push(v), q)),
            },
        }
    }
}

/// Where a tensor fails, if its frame (magic string and byte count) or one of
/// its numbers is cut short or the magic string is wrong.
pub open spec fn frame_error(d: Seq<u8>, pos: int) -> Option<ReadError> {
    if !left(d, pos, 17) {
        Some(eof(17, d, pos))
    } else if d.subrange(pos, pos + 17) != LEB128_MAGIC_STRING@ {
        Some(ReadError::MissingMagic)
    } else if !left(d, pos + 17, 4) {
        Some(eof(4, d, pos + 17))
    } else {
        None
    }
}

/// Where reading stops in a frame that is wrong: before what is cut short, or
/// behind a wrong magic string.
pub open spec fn frame_stop(d: Seq<u8>, pos: int) -> int {
    if left(d, pos, 17) {
        pos + 17
    } else {
        pos
    }
}

/// How many of `n` LEB128 numbers are there whole.
pub open spec fn whole16(d: Seq<u8>, pos: int, n: nat) -> nat
    decreases n,
{
    if n == 0 || leb16_row(d, pos, n) is Some {
        n
    } else {
        whole16(d, pos, (n - 1) as nat)
    }
}

/// Where reading a tensor of `n` 16-bit numbers stops.
pub open spec fn tensor16_stop(d: Seq<u8>, pos: int, n: nat) -> int {
    if frame_error(d, pos) is Some {
        frame_stop(d, pos)
    } else {
        match leb16_row(d, pos + 21, n) {
            Some((_, p)) => p,
            None => d.len() as int,
        }
    }
}

/// The numbers that are there whole have been taken over from a tensor; the
/// others are as they were.
pub open spec fn filled16(new: Seq<i16>, old: Seq<i16>, d: Seq<u8>, pos: int) -> bool {
    let k = if frame_error(d, pos) is Some {
        0
    } else {
        whole16(d, pos + 21, old.len())
    };
    &&& new.len() == old.len()
    &&& forall|j: int|
        0 <= j < new.len() ==> #[trigger] new[j] == if j < k {
            (leb16_row(d, pos + 21, k)->0).0[j]
        } else {
            old[j] as int
        }
}

/// A tensor of `n` 16-bit numbers behind its frame.
pub open spec fn tensor16(d: Seq<u8>, pos: int, n: nat) -> Result<(Seq<int>, int), ReadError> {
    match frame_error(d, pos) {
        Some(e) => Err(e),
        None => match leb16_row(d, pos + 21, n) {
            Some(x) => Ok(x),
            None => Err(eof(1, d, d.len() as int)),
        },
    }
}

/// How many of `n` LEB128 numbers are there whole.
pub open spec fn whole32(d: Seq<u8>, pos: int, n: nat) -> nat
    decreases n,
{
    if n == 0 || leb32_row(d, pos, n) is Some {
        n
    } else {
        whole32(d, pos, (n - 1) as nat)
    }
}

/// Where reading a tensor of `n` 32-bit numbers stops.
pub open spec fn tensor32_stop(d: Seq<u8>, pos: int, n: nat) -> int {
    if frame_error(d, pos) is Some {
        frame_stop(d, pos)
    } else {
        match leb32_row(d, pos + 21, n) {
            Some((_, p)) => p,
            None => d.len() as int,
        }
    }
}

/// The numbers that are there whole have been taken over from a tensor; the
/// others are as they were.
pub open spec fn filled32(new: Seq<i32>, old: Seq<i32>, d: Seq<u8>, pos: int) -> bool {
    let k = if frame_error(d, pos) is Some {
        0
    } else {
        whole32(d, pos + 21, old.len())
    };
    &&& new.len() == old.len()
    &&& forall|j: int|
        0 <= j < new.len() ==> #[trigger] new[j] == if j < k {
            (leb32_row(d, pos + 21, k)->0).0[j]
        } else {
            old[j] as int
        }
}

/// A tensor of `n` 32-bit numbers behind its frame.
pub open spec fn tensor32(d: Seq<u8>, pos: int, n: nat) -> Result<(Seq<int>, int), ReadError> {
    match frame_error(d, pos) {
        Some(e) => Err(e),
        None => match leb32_row(d, pos + 21, n) {
            Some(x) => Ok(x),
            None => Err(eof(1, d, d.len() as int)),
        },
    }
}

proof fn whole16_is(d: Seq<u8>, pos: int, k: nat, n: nat)
    requires
        k <= n,
        leb16_row(d, pos, k) is Some,
        k == n || leb16_row(d, pos, k + 1) is None,
    ensures
        whole16(d, pos, n) == k,
    decreases n,
{
    if k < n {
        leb16_row_prefix(d, pos, k + 1, n);
        whole16_is(d, pos, k, (n - 1) as nat);
    }
}

proof fn leb16_row_prefix(d: Seq<u8>, pos: int, k: nat, n: nat)
    requires
        k <= n,
        leb16_row(d, pos, k) is None,
    ensures
        leb16_row(d, pos, n) is None,
    decreases n,
{
    if k < n {
        leb16_row_prefix(d, pos, k, (n - 1) as nat);
    }
}

proof fn whole32_is(d: Seq<u8>, pos: int, k: nat, n: nat)
    requires
        k <= n,
        leb32_row(d, pos, k) is Some,
        k == n || leb32_row(d, pos, k + 1) is None,
    ensures
        whole32(d, pos, n) == k,
    decreases n,
{
    if k < n {
        leb32_row_prefix(d, pos, k + 1, n);
        whole32_is(d, pos, k, (n - 1) as nat);
    }
}

proof fn leb32_row_prefix(d: Seq<u8>, pos: int, k: nat, n: nat)
    requires
        k <= n,
        leb32_row(d, pos, k) is None,
    ensures
        leb32_row(d, pos, n) is None,
    decreases n,
{
    if k < n {
        leb32_row_prefix(d, pos, k, (n - 1) as nat);
    }
}

/// Reads the frame of a tensor. The byte count in it is not needed.
fn read_frame(r: &mut Reader) -> (e: Option<ReadError>)
    requires
        old(r).wf(),
    ensures
        final(r).wf(),
        final(r).data@ == old(r).data@,
        e == frame_error(old(r).data@, old(r).pos as int),
        e is None ==> final(r).pos == old(r).pos + 21,
        e is Some ==> final(r).pos == frame_stop(old(r).data@, old(r).pos as int),
{
    let magic = match r.read_exact_bytes(17) {
        Err(e) => {
            return Some(e);
        },
        Ok(b) => b,
    };
    let mut i: usize = 0;
    while i < 17
        invariant
            i <= 17,
            magic@.len() == 17,
            forall|j: int| 0 <= j < i ==> magic@[j] == LEB128_MAGIC_STRING@[j],
            magic@ == old(r).data@.subrange(old(r).pos as int, old(r).pos + 17),
            left(old(r).data@, old(r).pos as int, 17),
            r.wf(),
            advanced(*r, *old(r), 17),
        decreases 17 - i,
    {
        if magic[i] != LEB128_MAGIC_STRING[i] {
            return Some(ReadError::MissingMagic);
        }
        i += 1;
    }
    proof {
        assert(magic@ =~= LEB128_MAGIC_STRING@);
    }
    match r.read_u32_le() {
        Err(e) => Some(e),
        Ok(_) => None,
    }
}

fn read_leb16(r: &mut Reader) -> (v: Option<i16>)
    requires
        old(r).wf(),
    ensures
        final(r).wf(),
        final(r).data@ == old(r).data@,
        match leb16(old(r).data@, old(r).pos as int, 0, 0) {
            Some((x, q)) => v matches Some(y) && y == x && final(r).pos == q,
            None => v is None && final(r).pos == final(r).data@.len(),
        },
{
    let total: usize = r.data.len();
    let mut word: u32 = 0;
    let mut shift: u32 = 0;
    while r.pos < total
        invariant
            r.wf(),
            total == r.data@.len(),
            r.data@ == old(r).data@,
            leb16(r.data@, r.pos as int, word, shift) == leb16(
                old(r).data@,
                old(r).pos as int,
                0,
                0,
            ),
        decreases total - r.pos,
    {
        let byte: u8 = r.data[r.pos];
        r.pos = r.pos + 1;
        word = word | (((byte & 0x7f) as u32) << (shift % 32));
        shift = shift.wrapping_add(7);
        if byte & 0x80 == 0 {
            if shift >= 16 || byte & 0x40 == 0 {
                return Some(low_i16(word));
            }
            proof {
                assert(shift < 16 ==> 1u32 << shift >= 1) by (bit_vector);
            }
            return Some(low_i16(word | !((1u32 << shift) - 1)));
        }
    }
    None
}

fn read_leb32(r: &mut Reader) -> (v: Option<i32>)
    requires
        old(r).wf(),
    ensures
        final(r).wf(),
        final(r).data@ == old(r).data@,
        match leb32(old(r).data@, old(r).pos as int, 0, 0) {
            Some((x, q)) => v matches Some(y) && y == x && final(r).pos == q,
            None => v is None && final(r).pos == final(r).data@.len(),
        },
{
    let total: usize = r.data.len();
    let mut word: u64 = 0;
    let mut shift: u32 = 0;
    while r.pos < total
        invariant
            r.wf(),
            total == r.data@.len(),
            r.data@ == old(r).data@,
            leb32(r.data@, r.pos as int, word, shift) == leb32(
                old(r).data@,
                old(r).pos as int,
                0,
                0,
            ),
        decreases total - r.pos,
    {
        let byte: u8 = r.data[r.pos];
        r.pos = r.pos + 1;
        word = word | (((byte & 0x7f) as u64) << (shift % 64));
        shift = shift.wrapping_add(7);
        if byte & 0x80 == 0 {
            if shift >= 32 || byte & 0x40 == 0 {
                return Some(low_i32((word % 0x1_0000_0000) as i64));
            }
            proof {
                assert(shift < 32 ==> 1u64 << shift >= 1) by (bit_vector);
            }
            let filled: u64 = word | !((1u64 << shift) - 1);
            return Some(low_i32((filled % 0x1_0000_0000) as i64));
        }
    }
    None
}

impl<'a> Reader<'a> {
    /// Fills `out` from a tensor of 16-bit numbers.
    pub fn read_leb128_i16(&mut self, out: &mut [i16]) -> (r: Result<(), ReadError>)
        requires
            old(self).wf(),
        ensures
            final(self).wf(),
            final(self).data@ == old(self).data@,
            final(out)@.len() == old(out)@.len(),
            filled16(final(out)@, old(out)@, old(self).data@, old(self).pos as int),
            final(self).pos == tensor16_stop(
                old(self).data@,
                old(self).pos as int,
                old(out)@.len(),
            ),
            match tensor16(old(self).data@, old(self).pos as int, old(out)@.len()) {
                Ok((row, _)) => {
                    &&& r is Ok
                    &&& forall|i: int| 0 <= i < row.len() ==> #[trigger] final(out)@[i] == row[i]
                },
                Err(e) => r == Err::<(), ReadError>(e),
            },
    {
        if let Some(e) = read_frame(self) {
            return Err(e);
        }
        let ghost d = self.data@;
        let ghost start = self.pos as int;
        let n: usize = out.len();
        let mut i: usize = 0;
        while i < n
            invariant
                i <= n,
                n == out@.len(),
                out@.len() == old(out)@.len(),
                self.wf(),
                self.data@ == d,
                d == old(self).data@,
                start == old(self).pos + 21,
                frame_error(d, old(self).pos as int) is None,
                leb16_row(d, start, i as nat) matches Some((row, p)) && p == self.pos && row.len()
                    == i && forall|j: int| 0 <= j < i ==> #[trigger] out@[j] == row[j],
                forall|j: int| i <= j < n ==> #[trigger] out@[j] == old(out)@[j],
            decreases n - i,
        {
            match read_leb16(self) {
                Some(v) => {
                    out[i] = v;
                },
                None => {
                    proof {
                        leb16_row_prefix(d, start, (i + 1) as nat, n as nat);
                        whole16_is(d, start, i as nat, n as nat);
                    }
                    let remaining: usize = self.remaining();
                    return Err(ReadError::UnexpectedEof { expected: 1, remaining });
                },
            }
            i += 1;
        }
        proof {
            whole16_is(d, start, n as nat, n as nat);
        }
        Ok(())
    }

    /// Fills `out` from a tensor of 32-bit numbers.
    pub fn read_leb128_i32(&mut self, out: &mut [i32]) -> (r: Result<(), ReadError>)
        requires
            old(self).wf(),
        ensures
            final(self).wf(),
            final(self).data@ == old(self).data@,
            final(out)@.len() == old(out)@.len(),
            filled32(final(out)@, old(out)@, old(self).data@, old(self).pos as int),
            final(self).pos == tensor32_stop(
                old(self).data@,
                old(self).pos as int,
                old(out)@.len(),
            ),
            match tensor32(old(self).data@, old(self).pos as int, old(out)@.len()) {
                Ok((row, _)) => {
                    &&& r is Ok
                    &&& forall|i: int| 0 <= i < row.len() ==> #[trigger] final(out)@[i] == row[i]
                },
                Err(e) => r == Err::<(), ReadError>(e),
            },
    {
        if let Some(e) = read_frame(self) {
            return Err(e);
        }
        let ghost d = self.data@;
        let ghost start = self.pos as int;
        let n: usize = out.len();
        let mut i: usize = 0;
        while i < n
            invariant
                i <= n,
                n == out@.len(),
                out@.len() == old(out)@.len(),
                self.wf(),
                self.data@ == d,
                d == old(self).data@,
                start == old(self).pos + 21,
                frame_error(d, old(self).pos as int) is None,
                leb32_row(d, start, i as nat) matches Some((row, p)) && p == self.pos && row.len()
                    == i && forall|j: int| 0 <= j < i ==> #[trigger] out@[j] == row[j],
                forall|j: int| i <= j < n ==> #[trigger] out@[j] == old(out)@[j],
            decreases n - i,
        {
            match read_leb32(self) {
                Some(v) => {
                    out[i] = v;
                },
                None => {
                    proof {
                        leb32_row_prefix(d, start, (i + 1) as nat, n as nat);
                        whole32_is(d, start, i as nat, n as nat);
                    }
                    let remaining: usize = self.remaining();
                    return Err(ReadError::UnexpectedEof { expected: 1, remaining });
                },
            }
            i += 1;
        }
        proof {
            whole32_is(d, start, n as nat, n as nat);
        }
        Ok(())
    }
}

/// The text of bytes that need not be UTF-8, each ill-formed part replaced.
pub uninterp spec fn lossy_text(bytes: Seq<u8>) -> Seq<char>;

/// The text is what a reader makes of the bytes. Well-formed UTF-8 keeps its
/// meaning.
pub open spec fn is_text_of(text: Seq<char>, bytes: Seq<u8>) -> bool {
    &&& text == lossy_text(bytes)
    &&& vstd::utf8::valid_utf8(bytes) ==> text == vstd::utf8::decode_utf8(bytes)
}

/// `String::from_utf8_lossy`: the text is a function of the bytes, and
/// well-formed UTF-8 keeps its meaning.
#[verifier::external_body]
fn from_utf8_lossy(bytes: &[u8]) -> (s: String)
    ensures
        s@ == lossy_text(bytes@),
        vstd::utf8::valid_utf8(bytes@) ==> s@ == vstd::utf8::decode_utf8(bytes@),
{
    String::from_utf8_lossy(bytes).into_owned()
}

impl<'a> Reader<'a> {
    pub fn read_string(&mut self, len: usize) -> (r: Result<String, ReadError>)
        requires
            old(self).wf(),
        ensures
            final(self).wf(),
            left(old(self).data@, old(self).pos as int, len as int) ==> {
                &&& advanced(*final(self), *old(self), len as int)
                &&& r matches Ok(s) && is_text_of(
                    s@,
                    old(self).data@.subrange(old(self).pos as int, old(self).pos + len),
                )
            },
            !left(old(self).data@, old(self).pos as int, len as int) ==> {
                &&& advanced(*final(self), *old(self), 0)
                &&& r matches Err(e) && e == eof(
                    len as int,
                    old(self).data@,
                    old(self).pos as int,
                )
            },
    {
        match self.read_exact_bytes(len) {
            Err(e) => Err(e),
            Ok(b) => Ok(from_utf8_lossy(b)),
        }
    }
}

/// Header of the file: what it describes, and the hash of the architecture it
/// was made for.
pub struct Header {
    pub hash_value: u32,
    pub description: String,
}

/// Why the header at `pos` cannot be read.
pub open spec fn header_error(d: Seq<u8>, pos: int) -> Option<ReadError> {
    if !left(d, pos, 4) {
        Some(eof(4, d, pos))
    } else if !left(d, pos + 4, 4) {
        Some(eof(4, d, pos + 4))
    } else if !left(d, pos + 8, 4) {
        Some(eof(4, d, pos + 8))
    } else if le32(d, pos) != VERSION {
        Some(ReadError::BadVersion { found: le32(d, pos) as u32 })
    } else if !left(d, pos + 12, le32(d, pos + 8)) {
        Some(eof(le32(d, pos + 8), d, pos + 12))
    } else {
        None
    }
}

/// Where reading the header at `pos` stops: before what is cut short, or behind
/// the three numbers.
pub open spec fn header_stop(d: Seq<u8>, pos: int) -> int {
    if !left(d, pos, 4) {
        pos
    } else if !left(d, pos + 4, 4) {
        pos + 4
    } else if !left(d, pos + 8, 4) {
        pos + 8
    } else if header_error(d, pos) is Some {
        pos + 12
    } else {
        header_end(d, pos)
    }
}

/// The position behind the header at `pos`.
pub open spec fn header_end(d: Seq<u8>, pos: int) -> int {
    pos + 12 + le32(d, pos + 8)
}

pub fn read_header(r: &mut Reader) -> (h: Result<Header, ReadError>)
    requires
        old(r).wf(),
    ensures
        final(r).wf(),
        final(r).data@ == old(r).data@,
        final(r).pos == header_stop(old(r).data@, old(r).pos as int),
        match header_error(old(r).data@, old(r).pos as int) {
            Some(e) => h matches Err(f) && f == e,
            None => {
                let d = old(r).data@;
                let pos = old(r).pos as int;
                &&& h matches Ok(x)
                &&& x.hash_value == le32(d, pos + 4)
                &&& is_text_of(x.description@, d.subrange(pos + 12, header_end(d, pos)))
                &&& final(r).pos == header_end(d, pos)
            },
        },
{
    let version = match r.read_u32_le() {
        Err(e) => {
            return Err(e);
        },
        Ok(v) => v,
    };
    let hash_value = match r.read_u32_le() {
        Err(e) => {
            return Err(e);
        },
        Ok(v) => v,
    };
    let size = match r.read_u32_le() {
        Err(e) => {
            return Err(e);
        },
        Ok(v) => v,
    };
    if version != VERSION {
        return Err(ReadError::BadVersion { found: version });
    }
    match r.read_string(size as usize) {
        Err(e) => Err(e),
        Ok(description) => Ok(Header { hash_value, description }),
    }
}

/// Why a component header that must hold `hash` cannot be read at `pos`.
pub open spec fn component_error(d: Seq<u8>, pos: int, hash: u32) -> Option<ReadError> {
    if !left(d, pos, 4) {
        Some(eof(4, d, pos))
    } else if le32(d, pos) != hash {
        Some(ReadError::ComponentHash { found: le32(d, pos) as u32, wanted: hash })
    } else {
        None
    }
}

pub fn read_component_header(r: &mut Reader, expected_hash: u32) -> (e: Result<(), ReadError>)
    requires
        old(r).wf(),
    ensures
        final(r).wf(),
        final(r).data@ == old(r).data@,
        match component_error(old(r).data@, old(r).pos as int, expected_hash) {
            Some(x) => e == Err::<(), ReadError>(x),
            None => e is Ok,
        },
        final(r).pos == if left(old(r).data@, old(r).pos as int, 4) {
            old(r).pos + 4
        } else {
            old(r).pos as int
        },
{
    let header = match r.read_u32_le() {
        Err(e) => {
            return Err(e);
        },
        Ok(v) => v,
    };
    if header != expected_hash {
        return Err(ReadError::ComponentHash { found: header, wanted: expected_hash });
    }
    Ok(())
}

} // verus!
