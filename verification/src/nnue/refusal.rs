//! Which changes make a good network file a bad one.
use vstd::prelude::*;
use crate::nnue::inference::{
    combined_hash, load_problem, network_at, networks_problem, transformer_at,
};
use crate::nnue::loader::{
    VERSION, component_error, frame_error, header_end, header_error, le32, leb16, leb16_row,
    leb32, leb32_row, leb_bits32, leb_bits64, tensor16, tensor32,
};
use crate::nnue::transformer::{stored_transformer, transformer_hash};

verus! {

proof fn leb16_longer(d: Seq<u8>, e: Seq<u8>, pos: int, word: u32, shift: u32)
    requires
        leb16(d, pos, word, shift) is Some,
    ensures
        leb16(d + e, pos, word, shift) == leb16(d, pos, word, shift),
    decreases d.len() - pos,
{
    assert((d + e)[pos] == d[pos]);
    if d[pos] & 0x80 != 0 {
        let w = leb_bits32(word, d[pos], shift);
        let s = vstd::wrapping::u32_specs::wrapping_add(shift, 7);
        leb16_longer(d, e, pos + 1, w, s);
    }
}

proof fn leb32_longer(d: Seq<u8>, e: Seq<u8>, pos: int, word: u64, shift: u32)
    requires
        leb32(d, pos, word, shift) is Some,
    ensures
        leb32(d + e, pos, word, shift) == leb32(d, pos, word, shift),
    decreases d.len() - pos,
{
    assert((d + e)[pos] == d[pos]);
    if d[pos] & 0x80 != 0 {
        let w = leb_bits64(word, d[pos], shift);
        let s = vstd::wrapping::u32_specs::wrapping_add(shift, 7);
        leb32_longer(d, e, pos + 1, w, s);
    }
}

proof fn row16_longer(d: Seq<u8>, e: Seq<u8>, pos: int, n: nat)
    requires
        leb16_row(d, pos, n) is Some,
    ensures
        leb16_row(d + e, pos, n) == leb16_row(d, pos, n),
    decreases n,
{
    if n > 0 {
        row16_longer(d, e, pos, (n - 1) as nat);
        let (_, p) = leb16_row(d, pos, (n - 1) as nat)->0;
        leb16_longer(d, e, p, 0, 0);
    }
}

proof fn row32_longer(d: Seq<u8>, e: Seq<u8>, pos: int, n: nat)
    requires
        leb32_row(d, pos, n) is Some,
    ensures
        leb32_row(d + e, pos, n) == leb32_row(d, pos, n),
    decreases n,
{
    if n > 0 {
        row32_longer(d, e, pos, (n - 1) as nat);
        let (_, p) = leb32_row(d, pos, (n - 1) as nat)->0;
        leb32_longer(d, e, p, 0, 0);
    }
}

proof fn frame_longer(d: Seq<u8>, e: Seq<u8>, pos: int)
    requires
        0 <= pos,
        frame_error(d, pos) is None,
    ensures
        frame_error(d + e, pos) is None,
{
    assert((d + e).subrange(pos, pos + 17) =~= d.subrange(pos, pos + 17));
}

/// Reading a number goes on.
proof fn leb16_moves(d: Seq<u8>, pos: int, word: u32, shift: u32)
    ensures
        leb16(d, pos, word, shift) matches Some((_, q)) ==> q > pos,
    decreases d.len() - pos,
{
    if 0 <= pos < d.len() && d[pos] & 0x80 != 0 {
        let w = leb_bits32(word, d[pos], shift);
        let s = vstd::wrapping::u32_specs::wrapping_add(shift, 7);
        leb16_moves(d, pos + 1, w, s);
    }
}

proof fn row16_moves(d: Seq<u8>, pos: int, n: nat)
    ensures
        leb16_row(d, pos, n) matches Some((_, q)) ==> q >= pos,
    decreases n,
{
    if n > 0 {
        row16_moves(d, pos, (n - 1) as nat);
        if let Some((_, p)) = leb16_row(d, pos, (n - 1) as nat) {
            leb16_moves(d, p, 0, 0);
        }
    }
}

proof fn tensor16_longer(d: Seq<u8>, e: Seq<u8>, pos: int, n: nat)
    requires
        0 <= pos,
        tensor16(d, pos, n) is Ok,
    ensures
        tensor16(d + e, pos, n) == tensor16(d, pos, n),
        (tensor16(d, pos, n)->Ok_0).1 >= pos,
{
    frame_longer(d, e, pos);
    row16_longer(d, e, pos + 21, n);
    row16_moves(d, pos + 21, n);
}

proof fn tensor32_longer(d: Seq<u8>, e: Seq<u8>, pos: int, n: nat)
    requires
        0 <= pos,
        tensor32(d, pos, n) is Ok,
    ensures
        tensor32(d + e, pos, n) == tensor32(d, pos, n),
{
    frame_longer(d, e, pos);
    row32_longer(d, e, pos + 21, n);
}

proof fn transformer_longer(d: Seq<u8>, e: Seq<u8>, pos: int)
    requires
        0 <= pos,
        stored_transformer(d, pos) is Ok,
    ensures
        stored_transformer(d + e, pos) == stored_transformer(d, pos),
{
    tensor16_longer(d, e, pos, 1536);
    let (_, p) = tensor16(d, pos, 1536)->Ok_0;
    tensor16_longer(d, e, p, 34603008);
    let (_, q) = tensor16(d, p, 34603008)->Ok_0;
    tensor32_longer(d, e, q, 180224);
}

proof fn front_longer(d: Seq<u8>, e: Seq<u8>, pos: int)
    requires
        0 <= pos,
        pos + 4 <= d.len(),
    ensures
        le32(d + e, pos) == le32(d, pos),
{
    let x = d + e;
    assert(x[pos] == d[pos] && x[pos + 1] == d[pos + 1] && x[pos + 2] == d[pos + 2] && x[pos + 3]
        == d[pos + 3]);
}

/// A good file with more bytes behind it is refused.
pub proof fn extension_is_refused(d: Seq<u8>, e: Seq<u8>)
    requires
        load_problem(d) is None,
        e.len() > 0,
    ensures
        load_problem(d + e) is Some,
{
    front_longer(d, e, 0);
    front_longer(d, e, 4);
    front_longer(d, e, 8);
    assert(header_error(d, 0) is None);
    assert(header_error(d + e, 0) is None);
    assert(header_end(d + e, 0) == header_end(d, 0));
    assert(component_error(d, header_end(d, 0), transformer_hash()) is None);
    front_longer(d, e, header_end(d, 0));
    transformer_longer(d, e, transformer_at(d));
    let (_, _, _, end) = stored_transformer(d, transformer_at(d))->Ok_0;
    assert(networks_problem(d, end, 8) is None);
    assert(network_at(end, 8) <= d.len());
}

/// A good file that is cut short is refused.
pub proof fn prefix_is_refused(d: Seq<u8>, n: int)
    requires
        load_problem(d) is None,
        0 <= n < d.len(),
    ensures
        load_problem(d.take(n)) is Some,
{
    if load_problem(d.take(n)) is None {
        extension_is_refused(d.take(n), d.skip(n));
        assert(d.take(n) + d.skip(n) =~= d);
    }
}

/// Four bytes are known by their number.
proof fn number_tells_bytes(d: Seq<u8>, x: Seq<u8>, pos: int)
    requires
        le32(d, pos) == le32(x, pos),
    ensures
        d[pos] == x[pos],
        d[pos + 1] == x[pos + 1],
        d[pos + 2] == x[pos + 2],
        d[pos + 3] == x[pos + 3],
{
}

/// A file whose version or hash is not that of a good file is refused.
pub proof fn changed_front_is_refused(d: Seq<u8>, x: Seq<u8>, i: int)
    requires
        load_problem(d) is None,
        0 <= i < 8,
        i < x.len(),
        x[i] != d[i],
    ensures
        load_problem(x) is Some,
{
    assert(le32(d, 0) == VERSION);
    assert(le32(d, 4) == combined_hash());
    if header_error(x, 0) is None {
        if i < 4 {
            number_tells_bytes(d, x, 0);
        } else if le32(x, 4) == combined_hash() {
            number_tells_bytes(d, x, 4);
        }
    }
}

/// Nothing can be cut from a good file or put behind it, and its version and
/// hash cannot be changed: the result is refused.
pub proof fn good_file_is_tight(d: Seq<u8>)
    requires
        load_problem(d) is None,
    ensures
        forall|n: int| 0 <= n < d.len() ==> load_problem(#[trigger] d.take(n)) is Some,
        forall|e: Seq<u8>| e.len() > 0 ==> load_problem(#[trigger] (d + e)) is Some,
        forall|x: Seq<u8>, i: int|
            0 <= i < 8 && i < x.len() && #[trigger] x[i] != d[i] ==> load_problem(x) is Some,
{
    assert forall|n: int| 0 <= n < d.len() implies load_problem(#[trigger] d.take(n)) is Some by {
        prefix_is_refused(d, n);
    }
    assert forall|e: Seq<u8>| e.len() > 0 implies load_problem(#[trigger] (d + e)) is Some by {
        extension_is_refused(d, e);
    }
    assert forall|x: Seq<u8>, i: int|
        0 <= i < 8 && i < x.len() && #[trigger] x[i] != d[i] implies load_problem(x) is Some by {
        changed_front_is_refused(d, x, i);
    }
}

} // verus!
