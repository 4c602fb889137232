//! What the errors of this module say.
use vstd::prelude::*;
use crate::nnue::inference::{LoadError, Network, network_hash};
use crate::nnue::loader::{ReadError, VERSION};
use crate::nnue::position::FenError;
use crate::nnue::transformer::{FeatureTransformer, transformer_hash};
use crate::text::{digits_of, letters, push_text, push_u64, split_words, texts, words};

verus! {

pub open spec fn hex_digit(d: int) -> char {
    if d < 10 {
        (48 + d) as char
    } else {
        (87 + d) as char
    }
}

/// The last `n` hexadecimal digits of a number.
pub open spec fn hex_digits(x: int, n: nat) -> Seq<char>
    decreases n,
{
    if n == 0 {
        seq![]
    } else {
        hex_digits(x / 16, (n - 1) as nat).push(hex_digit(x % 16))
    }
}

/// A number with its prefix and eight hexadecimal digits.
pub open spec fn hex_text(x: u32) -> Seq<char> {
    "0x"@ + hex_digits(x as int, 8)
}

fn push_hex_digits(s: &mut String, x: u32, n: u32)
    ensures
        final(s)@ == old(s)@ + hex_digits(x as int, n as nat),
    decreases n,
{
    if n > 0 {
        push_hex_digits(s, x / 16, n - 1);
        let d: u8 = (x % 16) as u8;
        s.push(
            if d < 10 {
                (48 + d) as char
            } else {
                (87 + d) as char
            },
        );
    }
    proof {
        assert(s@ =~= old(s)@ + hex_digits(x as int, n as nat));
    }
}

fn push_hex(s: &mut String, x: u32)
    ensures
        final(s)@ == old(s)@ + hex_text(x),
{
    push_text(s, "0x");
    push_hex_digits(s, x, 8);
    proof {
        assert(s@ =~= old(s)@ + hex_text(x));
    }
}

pub open spec fn read_error_text(e: ReadError) -> Seq<char> {
    match e {
        ReadError::UnexpectedEof { expected, remaining } => "expected "@ + digits_of(
            expected as int,
        ) + " bytes, only "@ + digits_of(remaining as int) + " remain"@,
        ReadError::MissingMagic => "missing COMPRESSED_LEB128 magic string before tensor"@,
        ReadError::BadVersion { found } => "bad NNUE version: got "@ + hex_text(found)
            + ", expected "@ + hex_text(VERSION),
        ReadError::ComponentHash { found, wanted } => "component hash mismatch: file has "@
            + hex_text(found) + ", expected "@ + hex_text(wanted),
    }
}

impl ReadError {
    pub fn message(&self) -> (r: String)
        ensures
            r@ == read_error_text(*self),
    {
        let mut s = String::new();
        match self {
            ReadError::UnexpectedEof { expected, remaining } => {
                push_text(&mut s, "expected ");
                push_u64(&mut s, *expected as u64);
                push_text(&mut s, " bytes, only ");
                push_u64(&mut s, *remaining as u64);
                push_text(&mut s, " remain");
            },
            ReadError::MissingMagic => {
                push_text(&mut s, "missing COMPRESSED_LEB128 magic string before tensor");
            },
            ReadError::BadVersion { found } => {
                push_text(&mut s, "bad NNUE version: got ");
                push_hex(&mut s, *found);
                push_text(&mut s, ", expected ");
                push_hex(&mut s, VERSION);
            },
            ReadError::ComponentHash { found, wanted } => {
                push_text(&mut s, "component hash mismatch: file has ");
                push_hex(&mut s, *found);
                push_text(&mut s, ", expected ");
                push_hex(&mut s, *wanted);
            },
        }
        proof {
            assert(s@ =~= read_error_text(*self));
        }
        s
    }
}

pub open spec fn load_error_text(e: LoadError) -> Seq<char> {
    match e {
        LoadError::Header(e) => "bad NNUE header: "@ + read_error_text(e),
        LoadError::HashMismatch { found, expected } => "top-level NNUE hash mismatch: file has "@
            + hex_text(found) + ", expected "@ + hex_text(expected)
            + " (FeatureTransformer::hash_value()="@ + hex_text(transformer_hash())
            + ", Network::hash_value()="@ + hex_text(network_hash()) + ")"@,
        LoadError::TransformerHeader(e) => "feature transformer header: "@ + read_error_text(e),
        LoadError::TransformerParameters(e) => "feature transformer parameters: "@
            + read_error_text(e),
        LoadError::NetworkHeader(i, e) => "network["@ + digits_of(i as int) + "] header: "@
            + read_error_text(e),
        LoadError::NetworkParameters(i, e) => "network["@ + digits_of(i as int)
            + "] parameters: "@ + read_error_text(e),
        LoadError::TrailingBytes(n) => "trailing "@ + digits_of(n as int)
            + " unread bytes after parsing all NNUE parameters"@,
    }
}

fn push_read_error(s: &mut String, e: &ReadError)
    ensures
        final(s)@ == old(s)@ + read_error_text(*e),
{
    let text = e.message();
    push_text(s, text.as_str());
}

impl LoadError {
    pub fn message(&self) -> (r: String)
        ensures
            r@ == load_error_text(*self),
    {
        let mut s = String::new();
        match self {
            LoadError::Header(e) => {
                push_text(&mut s, "bad NNUE header: ");
                push_read_error(&mut s, e);
            },
            LoadError::HashMismatch { found, expected } => {
                push_text(&mut s, "top-level NNUE hash mismatch: file has ");
                push_hex(&mut s, *found);
                push_text(&mut s, ", expected ");
                push_hex(&mut s, *expected);
                push_text(&mut s, " (FeatureTransformer::hash_value()=");
                push_hex(&mut s, FeatureTransformer::hash_value());
                push_text(&mut s, ", Network::hash_value()=");
                push_hex(&mut s, Network::hash_value());
                push_text(&mut s, ")");
            },
            LoadError::TransformerHeader(e) => {
                push_text(&mut s, "feature transformer header: ");
                push_read_error(&mut s, e);
            },
            LoadError::TransformerParameters(e) => {
                push_text(&mut s, "feature transformer parameters: ");
                push_read_error(&mut s, e);
            },
            LoadError::NetworkHeader(i, e) => {
                push_text(&mut s, "network[");
                push_u64(&mut s, *i as u64);
                push_text(&mut s, "] header: ");
                push_read_error(&mut s, e);
            },
            LoadError::NetworkParameters(i, e) => {
                push_text(&mut s, "network[");
                push_u64(&mut s, *i as u64);
                push_text(&mut s, "] parameters: ");
                push_read_error(&mut s, e);
            },
            LoadError::TrailingBytes(n) => {
                push_text(&mut s, "trailing ");
                push_u64(&mut s, *n as u64);
                push_text(&mut s, " unread bytes after parsing all NNUE parameters");
            },
        }
        proof {
            assert(s@ =~= load_error_text(*self));
        }
        s
    }
}

/// The second word of a text, if there is one.
pub open spec fn second_word(text: Seq<char>) -> Seq<char> {
    if words(text).len() >= 2 {
        words(text)[1]
    } else {
        seq![]
    }
}

pub open spec fn fen_error_text(e: FenError, fen: Seq<char>) -> Seq<char> {
    match e {
        FenError::TooFewFields => "FEN needs at least board + side-to-move: "@ + fen,
        FenError::WrongRankCount => "FEN board must have 8 ranks: "@ + fen,
        FenError::RankOverflow => "FEN rank overflow: "@ + fen,
        FenError::BadPiece(c) => "bad piece char '"@ + seq![c] + "' in FEN: "@ + fen,
        FenError::BadRankLength => "FEN rank does not sum to 8 files: "@ + fen,
        FenError::BadSide => "bad side-to-move field '"@ + second_word(fen) + "' in FEN: "@ + fen,
        FenError::MissingKing => "FEN missing a king: "@ + fen,
    }
}

fn push_letters(s: &mut String, t: &Vec<char>)
    ensures
        final(s)@ == old(s)@ + t@,
{
    let mut i: usize = 0;
    proof {
        assert(s@ =~= old(s)@ + t@.take(0));
    }
    while i < t.len()
        invariant
            i <= t@.len(),
            s@ == old(s)@ + t@.take(i as int),
        decreases t@.len() - i,
    {
        s.push(t[i]);
        proof {
            assert(s@ =~= old(s)@ + t@.take(i + 1));
        }
        i += 1;
    }
    proof {
        assert(t@.take(i as int) =~= t@);
    }
}

impl FenError {
    /// The message for an error in the text `fen`.
    pub fn message(&self, fen: &str) -> (r: String)
        ensures
            r@ == fen_error_text(*self, fen@),
    {
        let mut s = String::new();
        match self {
            FenError::TooFewFields => {
                push_text(&mut s, "FEN needs at least board + side-to-move: ");
            },
            FenError::WrongRankCount => {
                push_text(&mut s, "FEN board must have 8 ranks: ");
            },
            FenError::RankOverflow => {
                push_text(&mut s, "FEN rank overflow: ");
            },
            FenError::BadPiece(c) => {
                push_text(&mut s, "bad piece char '");
                s.push(*c);
                push_text(&mut s, "' in FEN: ");
            },
            FenError::BadRankLength => {
                push_text(&mut s, "FEN rank does not sum to 8 files: ");
            },
            FenError::BadSide => {
                push_text(&mut s, "bad side-to-move field '");
                let ws = split_words(&letters(fen));
                if ws.len() >= 2 {
                    push_letters(&mut s, &ws[1]);
                    proof {
                        assert(texts(ws@)[1] == ws@[1]@);
                    }
                }
                push_text(&mut s, "' in FEN: ");
            },
            FenError::MissingKing => {
                push_text(&mut s, "FEN missing a king: ");
            },
        }
        push_text(&mut s, fen);
        proof {
            assert(s@ =~= fen_error_text(*self, fen@));
        }
        s
    }
}

} // verus!
