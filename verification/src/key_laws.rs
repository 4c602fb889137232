//! What the key of a position depends on.
use vstd::prelude::*;
use crate::geometry::file;
use crate::pieces::{Color, PieceType};
use crate::rules::Board;
use crate::zobrist::{board_hash, output, square_number, squares_hash, squares_hash_update};

verus! {

/// The key of a board answers to every part of the position: to whose turn it is,
/// to the castling rights, to the file of the en-passant square, and to what
/// stands on each square, each with numbers of its own; and to nothing else.
pub proof fn key_answers_to_all(
    b: Board,
    rights: u8,
    e: u8,
    s: int,
    c: Color,
    pt: PieceType,
    halfmove: u16,
    fullmove: u16,
)
    requires
        b.squares.len() == 64,
        0 <= s < 64,
    ensures
        board_hash(Board { side: b.side.other(), ..b }) == board_hash(b) ^ output(768),
        board_hash(Board { castling: rights, ..b }) == board_hash(b) ^ output(
            769 + b.castling % 16,
        ) ^ output(769 + rights % 16),
        b.ep is None ==> board_hash(Board { ep: Some(e), ..b }) == board_hash(b) ^ output(
            785 + file(e as int),
        ),
        b.squares[s] is None && pt != PieceType::NoPiece ==> board_hash(
            Board { squares: b.squares.update(s, Some((c, pt))), ..b },
        ) == board_hash(b) ^ output(
            (if c == Color::White {
                0int
            } else {
                384
            }) + 64 * (match pt {
                PieceType::Pawn => 0int,
                PieceType::Knight => 1,
                PieceType::Bishop => 2,
                PieceType::Rook => 3,
                PieceType::Queen => 4,
                _ => 5,
            }) + s,
        ),
        board_hash(Board { halfmove, fullmove, ..b }) == board_hash(b),
{
    let h = squares_hash(b.squares, 64);
    let x = output(768);
    let k = output(769 + b.castling % 16);
    let k2 = output(769 + rights % 16);
    let p = match b.ep {
        Some(f) => output(785 + file(f as int)),
        None => 0,
    };
    let q = output(785 + file(e as int));
    let d = match b.side {
        Color::Black => x,
        Color::White => 0,
    };
    let n = square_number(Some((c, pt)), s);
    let z = square_number(None, s);
    squares_hash_update(b.squares, s, Some((c, pt)), 64);
    xors(h, d, x, k, k2, p, q, n);
}

proof fn xors(h: u64, d: u64, x: u64, k: u64, k2: u64, p: u64, q: u64, n: u64)
    ensures
        h ^ (x ^ k ^ p) == (h ^ (0 ^ k ^ p)) ^ x,
        h ^ (0 ^ k ^ p) == (h ^ (x ^ k ^ p)) ^ x,
        h ^ (d ^ k2 ^ p) == (h ^ (d ^ k ^ p)) ^ k ^ k2,
        h ^ (d ^ k ^ q) == (h ^ (d ^ k ^ 0)) ^ q,
        (h ^ 0 ^ n) ^ (d ^ k ^ p) == (h ^ (d ^ k ^ p)) ^ n,
{
    assert(h ^ (x ^ k ^ p) == (h ^ (0 ^ k ^ p)) ^ x && h ^ (0 ^ k ^ p) == (h ^ (x ^ k ^ p)) ^ x && h
        ^ (d ^ k2 ^ p) == (h ^ (d ^ k ^ p)) ^ k ^ k2 && h ^ (d ^ k ^ q) == (h ^ (d ^ k ^ 0)) ^ q && (
    h ^ 0 ^ n) ^ (d ^ k ^ p) == (h ^ (d ^ k ^ p)) ^ n) by (bit_vector);
}

} // verus!
