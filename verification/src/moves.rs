//! Moves, packed into 32 bits, and lists of them.
//!
//! Bits `[0..6)` hold the origin, `[6..12)` the destination, `[12..16)` the
//! flag, `[16..19)` the moved piece and `[19..22)` the captured piece.
use vstd::prelude::*;
use crate::bitboard::{file_of, rank_of};
use crate::bits::count;
use crate::geometry::{file, rank};
use crate::pieces::PieceType;

verus! {

#[derive(Copy, Clone, PartialEq, Eq, Debug, Structural)]
pub struct Move(pub u32);

#[derive(Copy, Clone, PartialEq, Eq, Debug, Structural)]
pub enum MoveFlag {
    Quiet,
    DoublePawnPush,
    KingCastle,
    QueenCastle,
    Capture,
    EpCapture,
    PromoN,
    PromoB,
    PromoR,
    PromoQ,
    PromoCaptureN,
    PromoCaptureB,
    PromoCaptureR,
    PromoCaptureQ,
}

/// What a packed move says.
pub struct MoveParts {
    pub from: int,
    pub to: int,
    pub flag: MoveFlag,
    pub piece: PieceType,
    pub captured: PieceType,
}

impl MoveFlag {
    /// The number that stands for this flag in a packed move.
    pub open spec fn number(self) -> int {
        match self {
            MoveFlag::Quiet => 0,
            MoveFlag::DoublePawnPush => 1,
            MoveFlag::KingCastle => 2,
            MoveFlag::QueenCastle => 3,
            MoveFlag::Capture => 4,
            MoveFlag::EpCapture => 5,
            MoveFlag::PromoN => 6,
            MoveFlag::PromoB => 7,
            MoveFlag::PromoR => 8,
            MoveFlag::PromoQ => 9,
            MoveFlag::PromoCaptureN => 10,
            MoveFlag::PromoCaptureB => 11,
            MoveFlag::PromoCaptureR => 12,
            MoveFlag::PromoCaptureQ => 13,
        }
    }

    pub open spec fn of_number(v: int) -> MoveFlag {
        if v == 0 {
            MoveFlag::Quiet
        } else if v == 1 {
            MoveFlag::DoublePawnPush
        } else if v == 2 {
            MoveFlag::KingCastle
        } else if v == 3 {
            MoveFlag::QueenCastle
        } else if v == 4 {
            MoveFlag::Capture
        } else if v == 5 {
            MoveFlag::EpCapture
        } else if v == 6 {
            MoveFlag::PromoN
        } else if v == 7 {
            MoveFlag::PromoB
        } else if v == 8 {
            MoveFlag::PromoR
        } else if v == 9 {
            MoveFlag::PromoQ
        } else if v == 10 {
            MoveFlag::PromoCaptureN
        } else if v == 11 {
            MoveFlag::PromoCaptureB
        } else if v == 12 {
            MoveFlag::PromoCaptureR
        } else {
            MoveFlag::PromoCaptureQ
        }
    }

    pub open spec fn captures(self) -> bool {
        self == MoveFlag::Capture || self == MoveFlag::EpCapture || self == MoveFlag::PromoCaptureN
            || self == MoveFlag::PromoCaptureB || self == MoveFlag::PromoCaptureR || self
            == MoveFlag::PromoCaptureQ
    }

    /// The piece a pawn becomes, or `NoPiece` for moves that do not promote.
    pub open spec fn promotes_to(self) -> PieceType {
        match self {
            MoveFlag::PromoN => PieceType::Knight,
            MoveFlag::PromoCaptureN => PieceType::Knight,
            MoveFlag::PromoB => PieceType::Bishop,
            MoveFlag::PromoCaptureB => PieceType::Bishop,
            MoveFlag::PromoR => PieceType::Rook,
            MoveFlag::PromoCaptureR => PieceType::Rook,
            MoveFlag::PromoQ => PieceType::Queen,
            MoveFlag::PromoCaptureQ => PieceType::Queen,
            _ => PieceType::NoPiece,
        }
    }

    pub open spec fn promotes(self) -> bool {
        self.promotes_to() != PieceType::NoPiece
    }

    #[inline(always)]
    pub fn code(self) -> (r: u8)
        ensures
            r == self.number(),
            r < 14,
            MoveFlag::of_number(r as int) == self,
    {
        match self {
            MoveFlag::Quiet => 0,
            MoveFlag::DoublePawnPush => 1,
            MoveFlag::KingCastle => 2,
            MoveFlag::QueenCastle => 3,
            MoveFlag::Capture => 4,
            MoveFlag::EpCapture => 5,
            MoveFlag::PromoN => 6,
            MoveFlag::PromoB => 7,
            MoveFlag::PromoR => 8,
            MoveFlag::PromoQ => 9,
            MoveFlag::PromoCaptureN => 10,
            MoveFlag::PromoCaptureB => 11,
            MoveFlag::PromoCaptureR => 12,
            MoveFlag::PromoCaptureQ => 13,
        }
    }

    #[inline(always)]
    pub fn from_u8(v: u8) -> (r: MoveFlag)
        requires
            v < 14,
        ensures
            r == MoveFlag::of_number(v as int),
            r.number() == v,
    {
        match v {
            0 => MoveFlag::Quiet,
            1 => MoveFlag::DoublePawnPush,
            2 => MoveFlag::KingCastle,
            3 => MoveFlag::QueenCastle,
            4 => MoveFlag::Capture,
            5 => MoveFlag::EpCapture,
            6 => MoveFlag::PromoN,
            7 => MoveFlag::PromoB,
            8 => MoveFlag::PromoR,
            9 => MoveFlag::PromoQ,
            10 => MoveFlag::PromoCaptureN,
            11 => MoveFlag::PromoCaptureB,
            12 => MoveFlag::PromoCaptureR,
            _ => MoveFlag::PromoCaptureQ,
        }
    }

    #[inline(always)]
    pub fn is_capture(self) -> (r: bool)
        ensures
            r == self.captures(),
    {
        matches!(
            self,
            MoveFlag::Capture
                | MoveFlag::EpCapture
                | MoveFlag::PromoCaptureN
                | MoveFlag::PromoCaptureB
                | MoveFlag::PromoCaptureR
                | MoveFlag::PromoCaptureQ
        )
    }

    #[inline(always)]
    pub fn is_promotion(self) -> (r: bool)
        ensures
            r == self.promotes(),
    {
        matches!(
            self,
            MoveFlag::PromoN
                | MoveFlag::PromoB
                | MoveFlag::PromoR
                | MoveFlag::PromoQ
                | MoveFlag::PromoCaptureN
                | MoveFlag::PromoCaptureB
                | MoveFlag::PromoCaptureR
                | MoveFlag::PromoCaptureQ
        )
    }

    #[inline(always)]
    pub fn promo_piece(self) -> (r: PieceType)
        ensures
            r == self.promotes_to(),
    {
        match self {
            MoveFlag::PromoN | MoveFlag::PromoCaptureN => PieceType::Knight,
            MoveFlag::PromoB | MoveFlag::PromoCaptureB => PieceType::Bishop,
            MoveFlag::PromoR | MoveFlag::PromoCaptureR => PieceType::Rook,
            MoveFlag::PromoQ | MoveFlag::PromoCaptureQ => PieceType::Queen,
            _ => PieceType::NoPiece,
        }
    }
}

pub open spec fn from_bits(w: u32) -> u32 {
    w & 0x3f
}

pub open spec fn to_bits(w: u32) -> u32 {
    (w >> 6) & 0x3f
}

pub open spec fn flag_bits(w: u32) -> u32 {
    (w >> 12) & 0xf
}

pub open spec fn piece_bits(w: u32) -> u32 {
    (w >> 16) & 0x7
}

pub open spec fn captured_bits(w: u32) -> u32 {
    (w >> 19) & 0x7
}

pub open spec fn pack(from: u32, to: u32, flag: u32, piece: u32, captured: u32) -> u32 {
    from | (to << 6) | (flag << 12) | (piece << 16) | (captured << 19)
}

proof fn unpack(from: u32, to: u32, flag: u32, piece: u32, captured: u32)
    by (bit_vector)
    requires
        from < 64,
        to < 64,
        flag < 16,
        piece < 8,
        captured < 8,
    ensures
        from_bits(pack(from, to, flag, piece, captured)) == from,
        to_bits(pack(from, to, flag, piece, captured)) == to,
        flag_bits(pack(from, to, flag, piece, captured)) == flag,
        piece_bits(pack(from, to, flag, piece, captured)) == piece,
        captured_bits(pack(from, to, flag, piece, captured)) == captured,
        pack(from, to, flag, piece, captured) < 0x40_0000,
{
}

proof fn field_ranges(w: u32)
    by (bit_vector)
    ensures
        from_bits(w) < 64,
        to_bits(w) < 64,
        flag_bits(w) < 16,
        piece_bits(w) < 8,
        captured_bits(w) < 8,
{
}

/// The packed form of the given parts.
pub open spec fn packed(p: MoveParts) -> Move {
    Move(
        pack(
            p.from as u32,
            p.to as u32,
            p.flag.number() as u32,
            p.piece.index() as u32,
            p.captured.index() as u32,
        ),
    )
}

/// Packing keeps the parts.
pub proof fn packed_parts(p: MoveParts)
    requires
        0 <= p.from < 64,
        0 <= p.to < 64,
    ensures
        packed(p).parts() == p,
        packed(p).wf(),
{
    unpack(
        p.from as u32,
        p.to as u32,
        p.flag.number() as u32,
        p.piece.index() as u32,
        p.captured.index() as u32,
    );
}

impl Move {
    /// The move that stands for no move.
    #[inline(always)]
    #[verifier::allow_in_spec]
    pub fn null() -> Move
        returns
            Move(0xFFFF_FFFF),
    {
        Move(0xFFFF_FFFF)
    }

    /// The flag and both piece fields hold numbers that stand for something.
    pub open spec fn wf(self) -> bool {
        flag_bits(self.0) < 14 && piece_bits(self.0) < 7 && captured_bits(self.0) < 7
    }

    pub open spec fn parts(self) -> MoveParts {
        MoveParts {
            from: from_bits(self.0) as int,
            to: to_bits(self.0) as int,
            flag: MoveFlag::of_number(flag_bits(self.0) as int),
            piece: PieceType::of_index(piece_bits(self.0) as int),
            captured: PieceType::of_index(captured_bits(self.0) as int),
        }
    }

    #[inline(always)]
    pub fn new(from: u8, to: u8, flag: MoveFlag, piece: PieceType, captured: PieceType) -> (r: Move)
        ensures
            ({
                let p = MoveParts { from: from as int, to: to as int, flag, piece, captured };
                r == packed(p) && (from < 64 && to < 64 ==> r.wf() && r.parts() == p)
            }),
    {
        let f: u32 = flag.code() as u32;
        let p: u32 = piece.idx() as u32;
        let c: u32 = captured.idx() as u32;
        proof {
            if from < 64 && to < 64 {
                unpack(from as u32, to as u32, f, p, c);
            }
        }
        Move((from as u32) | ((to as u32) << 6) | (f << 12) | (p << 16) | (c << 19))
    }

    #[inline(always)]
    pub fn from_sq(self) -> (r: u8)
        ensures
            r == self.parts().from,
            r < 64,
    {
        proof {
            field_ranges(self.0);
        }
        (self.0 & 0x3F) as u8
    }

    #[inline(always)]
    pub fn to_sq(self) -> (r: u8)
        ensures
            r == self.parts().to,
            r < 64,
    {
        proof {
            field_ranges(self.0);
        }
        ((self.0 >> 6) & 0x3F) as u8
    }

    #[inline(always)]
    pub fn flag(self) -> (r: MoveFlag)
        requires
            self.wf(),
        ensures
            r == self.parts().flag,
    {
        MoveFlag::from_u8(((self.0 >> 12) & 0xF) as u8)
    }

    #[inline(always)]
    pub fn piece(self) -> (r: PieceType)
        requires
            self.wf(),
        ensures
            r == self.parts().piece,
    {
        PieceType::from_idx(((self.0 >> 16) & 0x7) as usize)
    }

    #[inline(always)]
    pub fn captured(self) -> (r: PieceType)
        requires
            self.wf(),
        ensures
            r == self.parts().captured,
    {
        PieceType::from_idx(((self.0 >> 19) & 0x7) as usize)
    }

    #[inline(always)]
    pub fn is_null(self) -> (r: bool)
        ensures
            r == (self == Move::null()),
    {
        self.0 == 0xFFFF_FFFF
    }

    /// Whether all fields of the move stand for something.
    #[inline(always)]
    pub fn is_well_formed(self) -> (r: bool)
        ensures
            r == self.wf(),
    {
        (self.0 >> 12) & 0xF < 14 && (self.0 >> 16) & 0x7 < 7 && (self.0 >> 19) & 0x7 < 7
    }

    /// The move in UCI notation: origin, destination, promotion letter.
    pub fn to_uci(self) -> (s: String)
        requires
            self.wf(),
        ensures
            s@ == uci_text(self.parts()),
    {
        let f = self.from_sq();
        let t = self.to_sq();
        let mut s = String::new();
        s.push(file_letter(file_of(f)));
        s.push(rank_digit(rank_of(f)));
        s.push(file_letter(file_of(t)));
        s.push(rank_digit(rank_of(t)));
        let flag = self.flag();
        if flag.is_promotion() {
            s.push(
                match flag.promo_piece() {
                    PieceType::Knight => 'n',
                    PieceType::Bishop => 'b',
                    PieceType::Rook => 'r',
                    _ => 'q',
                },
            );
        }
        proof {
            assert(s@ =~= uci_text(self.parts()));
        }
        s
    }
}

/// `String::push` appends the character to the end of the string.
pub assume_specification[ String::push ](s: &mut String, c: char)
    ensures
        final(s)@ == old(s)@.push(c),
;

/// The letters `a` to `h` name the files.
pub open spec fn letter_of(file: int) -> char {
    (97 + file) as char
}

/// The digits `1` to `8` name the ranks.
pub open spec fn digit_of(rank: int) -> char {
    (49 + rank) as char
}

pub open spec fn square_name(s: int) -> Seq<char> {
    seq![letter_of(file(s)), digit_of(rank(s))]
}

pub open spec fn promotion_letter(pt: PieceType) -> char {
    match pt {
        PieceType::Knight => 'n',
        PieceType::Bishop => 'b',
        PieceType::Rook => 'r',
        _ => 'q',
    }
}

pub open spec fn uci_text(p: MoveParts) -> Seq<char> {
    let squares = square_name(p.from) + square_name(p.to);
    if p.flag.promotes() {
        squares.push(promotion_letter(p.flag.promotes_to()))
    } else {
        squares
    }
}

pub(crate) fn file_letter(file: u8) -> (c: char)
    requires
        file < 8,
    ensures
        c == letter_of(file as int),
{
    (97 + file) as char
}

pub(crate) fn rank_digit(rank: u8) -> (c: char)
    requires
        rank < 32,
    ensures
        c == digit_of(rank as int),
{
    (49 + rank) as char
}

/// Capacity that a move list starts with: no position that a game can reach has
/// more legal moves.
pub const MAX_MOVES: usize = 218;

/// A list of moves, without a limit on their number.
pub struct MoveList {
    pub moves: Vec<Move>,
}

impl MoveList {
    pub open spec fn view(&self) -> Seq<Move> {
        self.moves@
    }

    #[inline(always)]
    pub fn new() -> (r: Self)
        ensures
            r@ == Seq::<Move>::empty(),
    {
        MoveList { moves: Vec::with_capacity(MAX_MOVES) }
    }

    /// Appends a move. The list has no limit: it grows beyond [`MAX_MOVES`], which
    /// boards with many promoted pieces can need.
    #[inline(always)]
    pub fn push(&mut self, m: Move)
        ensures
            final(self)@ == old(self)@.push(m),
    {
        self.moves.push(m);
    }

    /// Number of moves in the list.
    #[inline(always)]
    pub fn count(&self) -> (n: usize)
        ensures
            n == self@.len(),
    {
        self.moves.len()
    }

    #[inline(always)]
    pub fn as_slice(&self) -> (r: &[Move])
        ensures
            r@ == self@,
    {
        self.moves.as_slice()
    }

    #[inline(always)]
    pub fn as_mut_slice(&mut self) -> (r: &mut [Move])
        ensures
            r@ == old(self)@,
            final(r)@ == final(self)@,
    {
        self.moves.as_mut_slice()
    }
}

} // verus!
