//! Zobrist hashing: one fixed 64-bit number for every piece on every square,
//! for the side to move, for each set of castling rights and for each
//! en-passant file. A position's key is the XOR of the numbers that apply.
//!
//! The numbers come from the splitmix64 generator with a fixed seed.
use vstd::prelude::*;
use crate::bitboard::{file_of, pop_lsb};
use crate::bits::{count, count_remove, on, on_none, on_range};
use crate::geometry::{file, valid};
use crate::pieces::{Color, PieceType};
use crate::position::Position;
use crate::rules::{Board, Squares};

verus! {

pub const SEED: u64 = 0x5EED_C0DE_F00D_1234;

pub const GAMMA: u64 = 0x9E37_79B9_7F4A_7C15;

/// The state of the generator after `n` steps.
pub open spec fn generator_state(n: nat) -> u64
    decreases n,
{
    if n == 0 {
        SEED
    } else {
        vstd::wrapping::u64_specs::wrapping_add(generator_state((n - 1) as nat), GAMMA)
    }
}

/// The output function of the generator.
pub open spec fn scramble(state: u64) -> u64 {
    let a = vstd::wrapping::u64_specs::wrapping_mul(state ^ (state >> 30), 0xBF58476D1CE4E5B9);
    let b = vstd::wrapping::u64_specs::wrapping_mul(a ^ (a >> 27), 0x94D049BB133111EB);
    b ^ (b >> 31)
}

/// The `n`-th output of the generator, counted from zero.
pub open spec fn output(n: int) -> u64 {
    scramble(generator_state((n + 1) as nat))
}

/// Key of a piece on a square.
pub open spec fn piece_number(c: Color, pt: PieceType, s: int) -> u64 {
    output(c.index() * 384 + pt.index() * 64 + s)
}

pub open spec fn side_number() -> u64 {
    output(768)
}

pub open spec fn castling_number(rights: int) -> u64 {
    output(769 + rights % 16)
}

pub open spec fn ep_file_number(file: int) -> u64 {
    output(785 + file % 8)
}

fn splitmix64_next(state: u64) -> (r: (u64, u64))
    ensures
        r.0 == vstd::wrapping::u64_specs::wrapping_add(state, GAMMA),
        r.1 == scramble(r.0),
{
    let state = state.wrapping_add(GAMMA);
    let mut z: u64 = state;
    z = (z ^ (z >> 30)).wrapping_mul(0xBF58476D1CE4E5B9);
    z = (z ^ (z >> 27)).wrapping_mul(0x94D049BB133111EB);
    z = z ^ (z >> 31);
    (state, z)
}

/// All keys, indexed by colour, piece type and square.
pub struct ZobristTable {
    pub(crate) pieces: [[[u64; 64]; 6]; 2],
    pub(crate) side: u64,
    pub(crate) castling: [u64; 16],
    pub(crate) ep_file: [u64; 8],
}

impl ZobristTable {
    #[verifier::type_invariant]
    pub(crate) closed spec fn wf(self) -> bool {
        &&& forall|c: int, p: int, s: int|
            0 <= c < 2 && 0 <= p < 6 && 0 <= s < 64 ==> #[trigger] self.pieces[c][p][s] == output(
                c * 384 + p * 64 + s,
            )
        &&& self.side == side_number()
        &&& forall|i: int| 0 <= i < 16 ==> #[trigger] self.castling[i] == output(769 + i)
        &&& forall|i: int| 0 <= i < 8 ==> #[trigger] self.ep_file[i] == output(785 + i)
    }

    pub fn new() -> Self {
        build_table()
    }
}

/// The keys of the 64 squares for one piece.
fn piece_keys(state: u64, Ghost(n): Ghost<nat>) -> (r: (u64, [u64; 64]))
    requires
        state == generator_state(n),
    ensures
        r.0 == generator_state(n + 64),
        forall|s: int| 0 <= s < 64 ==> #[trigger] r.1[s] == output(n + s),
{
    let mut state: u64 = state;
    let mut keys: [u64; 64] = [0u64; 64];
    let mut s: usize = 0;
    while s < 64
        invariant
            s <= 64,
            state == generator_state(n + s as nat),
            forall|t: int| 0 <= t < s ==> #[trigger] keys[t] == output(n + t),
        decreases 64 - s,
    {
        let (next_state, value) = splitmix64_next(state);
        state = next_state;
        keys[s] = value;
        s += 1;
    }
    (state, keys)
}

fn build_table() -> (r: ZobristTable)
    ensures
        r.wf(),
{
    let mut state: u64 = SEED;
    let mut pieces: [[[u64; 64]; 6]; 2] = [[[0u64; 64]; 6]; 2];
    let mut c: usize = 0;
    while c < 2
        invariant
            c <= 2,
            state == generator_state((c * 384) as nat),
            forall|d: int, p: int, s: int|
                0 <= d < c && 0 <= p < 6 && 0 <= s < 64 ==> #[trigger] pieces[d][p][s] == output(
                    d * 384 + p * 64 + s,
                ),
        decreases 2 - c,
    {
        let mut pt: usize = 0;
        while pt < 6
            invariant
                c < 2,
                pt <= 6,
                state == generator_state((c * 384 + pt * 64) as nat),
                forall|d: int, p: int, s: int|
                    0 <= d < c && 0 <= p < 6 && 0 <= s < 64 ==> #[trigger] pieces[d][p][s]
                        == output(d * 384 + p * 64 + s),
                forall|p: int, s: int|
                    0 <= p < pt && 0 <= s < 64 ==> #[trigger] pieces[c as int][p][s] == output(
                        c * 384 + p * 64 + s,
                    ),
            decreases 6 - pt,
        {
            let (next_state, keys) = piece_keys(state, Ghost((c * 384 + pt * 64) as nat));
            state = next_state;
            pieces[c][pt] = keys;
            pt += 1;
        }
        c += 1;
    }
    let (next_state, side) = splitmix64_next(state);
    state = next_state;
    let mut castling: [u64; 16] = [0u64; 16];
    let mut i: usize = 0;
    while i < 16
        invariant
            i <= 16,
            state == generator_state((769 + i) as nat),
            forall|j: int| 0 <= j < i ==> #[trigger] castling[j] == output(769 + j),
        decreases 16 - i,
    {
        let (next_state, value) = splitmix64_next(state);
        state = next_state;
        castling[i] = value;
        i += 1;
    }
    let mut ep_file: [u64; 8] = [0u64; 8];
    let mut f: usize = 0;
    while f < 8
        invariant
            f <= 8,
            state == generator_state((785 + f) as nat),
            forall|j: int| 0 <= j < f ==> #[trigger] ep_file[j] == output(785 + j),
        decreases 8 - f,
    {
        let (next_state, value) = splitmix64_next(state);
        state = next_state;
        ep_file[f] = value;
        f += 1;
    }
    ZobristTable { pieces, side, castling, ep_file }
}

#[inline(always)]
pub fn piece_key(table: &ZobristTable, color: Color, piece_type: PieceType, square: u8) -> (r: u64)
    requires
        piece_type != PieceType::NoPiece,
        square < 64,
    ensures
        r == piece_number(color, piece_type, square as int),
{
    proof {
        use_type_invariant(table);
    }
    table.pieces[color.idx()][piece_type.idx()][square as usize]
}

#[inline(always)]
pub fn side_key(table: &ZobristTable) -> (r: u64)
    ensures
        r == side_number(),
{
    proof {
        use_type_invariant(table);
    }
    table.side
}

#[inline(always)]
pub fn castling_key(table: &ZobristTable, rights: u8) -> (r: u64)
    ensures
        r == castling_number(rights as int),
{
    proof {
        use_type_invariant(table);
        assert(rights & 0x0F == rights % 16) by (bit_vector);
    }
    table.castling[(rights & 0x0F) as usize]
}

#[inline(always)]
pub fn ep_file_key(table: &ZobristTable, file: u8) -> (r: u64)
    ensures
        r == ep_file_number(file as int),
{
    proof {
        use_type_invariant(table);
        assert(file & 0x07 == file % 8) by (bit_vector);
    }
    table.ep_file[(file & 0x07) as usize]
}

/// What stands on square `s` contributes this.
pub open spec fn square_number(x: Option<(Color, PieceType)>, s: int) -> u64 {
    match x {
        Some((c, pt)) => piece_number(c, pt, s),
        None => 0,
    }
}

/// The key of the pieces on the squares below `n`.
pub open spec fn squares_hash(squares: Squares, n: int) -> u64
    decreases n,
{
    if n <= 0 {
        0
    } else {
        squares_hash(squares, n - 1) ^ square_number(squares[n - 1], n - 1)
    }
}

pub open spec fn side_hash(side: Color) -> u64 {
    if side == Color::Black {
        side_number()
    } else {
        0
    }
}

pub open spec fn ep_hash(ep: Option<u8>) -> u64 {
    match ep {
        Some(e) => ep_file_number(file(e as int)),
        None => 0,
    }
}

/// The part of the key that does not come from the pieces.
pub open spec fn state_hash(side: Color, castling: u8, ep: Option<u8>) -> u64 {
    side_hash(side) ^ castling_number(castling as int) ^ ep_hash(ep)
}

/// The key of a board.
pub open spec fn board_hash(b: Board) -> u64 {
    squares_hash(b.squares, 64) ^ state_hash(b.side, b.castling, b.ep)
}

/// The members below `n` of a mask of pieces of one kind.
pub open spec fn mask_hash(bb: u64, c: Color, pt: PieceType, n: int) -> u64
    decreases n,
{
    if n <= 0 {
        0
    } else {
        mask_hash(bb, c, pt, n - 1) ^ if on(bb, n - 1) {
            piece_number(c, pt, n - 1)
        } else {
            0
        }
    }
}

pub open spec fn color_at(k: int) -> Color {
    if k < 6 {
        Color::White
    } else {
        Color::Black
    }
}

/// The first `k` of the twelve masks, white's six first.
pub open spec fn masks_hash(pieces: [[u64; 6]; 2], n: int, k: int) -> u64
    decreases k,
{
    if k <= 0 {
        0
    } else {
        masks_hash(pieces, n, k - 1) ^ mask_hash(
            pieces[(k - 1) / 6][(k - 1) % 6],
            color_at(k - 1),
            PieceType::of_index((k - 1) % 6),
            n,
        )
    }
}

/// The masks and the squares describe the same pieces.
pub open spec fn masks_agree(pieces: [[u64; 6]; 2], squares: Squares) -> bool {
    forall|c: Color, pt: PieceType, s: int|
        valid(s) && pt != PieceType::NoPiece ==> (#[trigger] on(pieces[c.index()][pt.index()], s)
            <==> squares[s] == Some((c, pt)))
}

/// What stands on the squares are pieces.
pub open spec fn real_pieces(squares: Squares) -> bool {
    forall|s: int|
        valid(s) ==> (#[trigger] squares[s] matches Some((c, pt)) ==> pt != PieceType::NoPiece)
}

/// XOR may be reordered.
pub proof fn xor_swap(a: u64, b: u64, c: u64)
    ensures
        (a ^ b) ^ c == (a ^ c) ^ b,
        (a ^ b) ^ c == a ^ (b ^ c),
        (a ^ b) ^ b == a,
        a ^ b == b ^ a,
        a ^ 0 == a,
        a ^ a == 0,
{
    assert((a ^ b) ^ c == (a ^ c) ^ b) by (bit_vector);
    assert((a ^ b) ^ c == a ^ (b ^ c)) by (bit_vector);
    assert((a ^ b) ^ b == a && a ^ b == b ^ a && a ^ 0 == a && a ^ a == 0) by (bit_vector);
}

/// Changing what stands on one square changes the key by the two numbers.
pub proof fn squares_hash_update(
    squares: Squares,
    s: int,
    x: Option<(Color, PieceType)>,
    n: int,
)
    requires
        0 <= s < squares.len(),
        n <= squares.len(),
    ensures
        squares_hash(squares.update(s, x), n) == if s < n {
            squares_hash(squares, n) ^ square_number(squares[s], s) ^ square_number(x, s)
        } else {
            squares_hash(squares, n)
        },
    decreases n,
{
    if n > 0 {
        squares_hash_update(squares, s, x, n - 1);
        let h = squares_hash(squares, n - 1);
        let a = square_number(squares[s], s);
        let b = square_number(x, s);
        if s == n - 1 {
            xor_swap(h, a, b);
            xor_swap(h, a, a);
        } else if s < n - 1 {
            let k = square_number(squares[n - 1], n - 1);
            xor_swap(h ^ a, b, k);
            xor_swap(h, a, k);
        }
    }
}

proof fn mask_hash_remove(a: u64, b: u64, t: int, c: Color, pt: PieceType, n: int)
    requires
        on(a, t),
        forall|s: int| #[trigger] on(b, s) <==> on(a, s) && s != t,
    ensures
        mask_hash(a, c, pt, n) == mask_hash(b, c, pt, n) ^ if t < n {
            piece_number(c, pt, t)
        } else {
            0
        },
    decreases n,
{
    if n > 0 {
        mask_hash_remove(a, b, t, c, pt, n - 1);
        let h = mask_hash(b, c, pt, n - 1);
        let k = piece_number(c, pt, t);
        let m = if on(a, n - 1) {
            piece_number(c, pt, n - 1)
        } else {
            0
        };
        xor_swap(h, k, m);
        xor_swap(h, m, 0);
        xor_swap(h ^ m, 0, 0);
        xor_swap(h, 0, 0);
        xor_swap(h, k, 0);
    } else {
        on_range(a, t);
        xor_swap(0, 0, 0);
    }
}

/// Adding one square to all masks adds what stands on it.
proof fn masks_hash_step(pieces: [[u64; 6]; 2], squares: Squares, n: int, k: int)
    requires
        masks_agree(pieces, squares),
        0 <= n < 64,
        0 <= k <= 12,
        real_pieces(squares),
    ensures
        masks_hash(pieces, n + 1, k) == masks_hash(pieces, n, k) ^ (match squares[n] {
            Some((c, pt)) => if 6 * c.index() + pt.index() < k {
                piece_number(c, pt, n)
            } else {
                0
            },
            None => 0,
        }),
    decreases k,
{
    if k > 0 {
        masks_hash_step(pieces, squares, n, k - 1);
        let c = color_at(k - 1);
        let pt = PieceType::of_index((k - 1) % 6);
        let bb = pieces[(k - 1) / 6][(k - 1) % 6];
        assert(c.index() == (k - 1) / 6 && pt.index() == (k - 1) % 6);
        assert(on(bb, n) <==> squares[n] == Some((c, pt)));
        let h = masks_hash(pieces, n, k - 1);
        let m = mask_hash(bb, c, pt, n);
        let e = match squares[n] {
            Some((d, q)) => if 6 * d.index() + q.index() < k - 1 {
                piece_number(d, q, n)
            } else {
                0
            },
            None => 0,
        };
        let f = if on(bb, n) {
            piece_number(c, pt, n)
        } else {
            0
        };
        xor_swap(h, e, m);
        xor_swap(h ^ m, e, f);
        xor_swap(h, e, m ^ f);
        xor_swap(h, m, f);
        xor_swap(h, m, 0);
        xor_swap(h ^ m, 0, f);
        xor_swap(h ^ m, 0, 0);
        xor_swap(h ^ e, m, f);
        xor_swap(h, 0, m);
        xor_swap(m, 0, 0);
        xor_swap(h ^ m, f, 0);
        xor_swap(f, 0, 0);
        if let Some((d, q)) = squares[n] {
            assert(q != PieceType::NoPiece);
        }
    } else {
        xor_swap(0, 0, 0);
    }
}

/// The key of the masks is the key of the squares they describe.
pub proof fn masks_hash_agrees(pieces: [[u64; 6]; 2], squares: Squares, n: int)
    requires
        masks_agree(pieces, squares),
        0 <= n <= 64,
        real_pieces(squares),
    ensures
        masks_hash(pieces, n, 12) == squares_hash(squares, n),
    decreases n,
{
    if n > 0 {
        masks_hash_agrees(pieces, squares, n - 1);
        masks_hash_step(pieces, squares, n - 1, 12);
    } else {
        masks_hash_zero(pieces, 12);
    }
}

proof fn masks_hash_zero(pieces: [[u64; 6]; 2], k: int)
    ensures
        masks_hash(pieces, 0, k) == 0,
    decreases k,
{
    if k > 0 {
        masks_hash_zero(pieces, k - 1);
        xor_swap(0, 0, 0);
    }
}

/// The key of one mask.
fn mask_key(table: &ZobristTable, mask: u64, color: Color, piece_type: PieceType) -> (r: u64)
    requires
        piece_type != PieceType::NoPiece,
    ensures
        r == mask_hash(mask, color, piece_type, 64),
{
    let mut bitboard: u64 = mask;
    let mut key: u64 = 0;
    proof {
        xor_swap(mask_hash(mask, color, piece_type, 64), 0, 0);
        xor_swap(0, mask_hash(mask, color, piece_type, 64), 0);
    }
    while bitboard != 0
        invariant
            piece_type != PieceType::NoPiece,
            key ^ mask_hash(bitboard, color, piece_type, 64) == mask_hash(
                mask,
                color,
                piece_type,
                64,
            ),
        decreases count(bitboard),
    {
        let ghost before = bitboard;
        let square = pop_lsb(&mut bitboard);
        proof {
            mask_hash_remove(before, bitboard, square as int, color, piece_type, 64);
            count_remove(before, bitboard, square as int, 64);
            let h = mask_hash(bitboard, color, piece_type, 64);
            xor_swap(key, piece_number(color, piece_type, square as int), h);
            xor_swap(key, h, piece_number(color, piece_type, square as int));
        }
        key = key ^ piece_key(table, color, piece_type, square);
    }
    proof {
        mask_hash_empty(color, piece_type, 64);
        xor_swap(key, 0, 0);
    }
    key
}

proof fn mask_hash_empty(c: Color, pt: PieceType, n: int)
    ensures
        mask_hash(0, c, pt, n) == 0,
    decreases n,
{
    if n > 0 {
        mask_hash_empty(c, pt, n - 1);
        on_none(n - 1);
        xor_swap(0, 0, 0);
    }
}

/// The key of a position, computed from its masks and its state.
pub fn compute_full(pos: &Position) -> (r: u64)
    ensures
        r == masks_hash(pos.pieces, 64, 12) ^ state_hash(
            pos.side_to_move,
            pos.castling_rights,
            pos.ep_square,
        ),
        pos.masks_wf() ==> r == board_hash(pos@),
{
    let table = &pos.ctx.zobrist;
    let mut key: u64 = 0;
    let mut k: usize = 0;
    while k < 12
        invariant
            k <= 12,
            key == masks_hash(pos.pieces, 64, k as int),
        decreases 12 - k,
    {
        let color = if k < 6 {
            Color::White
        } else {
            Color::Black
        };
        let piece_type = PieceType::from_idx(k % 6);
        key = key ^ mask_key(table, pos.pieces[k / 6][k % 6], color, piece_type);
        k += 1;
    }
    proof {
        if pos.masks_wf() {
            masks_hash_agrees(pos.pieces, pos.mailbox@, 64);
        }
    }
    let ghost h = key;
    let ghost sd = side_hash(pos.side_to_move);
    let ghost cr = castling_number(pos.castling_rights as int);
    proof {
        xor_swap(h, 0, 0);
        xor_swap(h, sd, cr);
        xor_swap(h, sd ^ cr, ep_hash(pos.ep_square));
        xor_swap(h ^ (sd ^ cr), 0, 0);
    }
    if pos.side_to_move == Color::Black {
        key = key ^ side_key(table);
    }
    key = key ^ castling_key(table, pos.castling_rights);
    if let Some(ep_square) = pos.ep_square {
        key = key ^ ep_file_key(table, file_of(ep_square));
    }
    key
}

} // verus!
