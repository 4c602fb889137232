//! A chess engine core with machine-checked contracts.
use vstd::prelude::*;

pub mod arith;
pub mod bitboard;
pub mod bits;
pub mod book;
pub mod book_file;
pub mod canonical;
pub mod capture_laws;
pub mod captures;
pub mod checks;
pub mod clock;
pub mod context;
pub mod double;
pub mod eval;
pub mod eval_laws;
pub mod exchange;
pub mod exchange_laws;
pub mod fen;
pub mod geometry;
pub mod integrity;
pub mod key_laws;
pub mod legality;
pub mod listing;
pub mod move_laws;
pub mod movegen;
pub mod moves;
pub mod nnue;
pub mod notation;
pub mod perft;
pub mod pieces;
pub mod position;
pub mod replay;
pub mod rules;
pub mod safety;
pub mod search;
pub mod single;
pub mod text;
pub mod uci;
pub mod zobrist;

verus! {

}
