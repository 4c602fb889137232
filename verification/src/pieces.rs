//! Colours and piece types.
use vstd::prelude::*;

verus! {

#[derive(Copy, Clone, Debug, PartialEq, Eq, Structural)]
pub enum Color {
    White,
    Black,
}

impl Color {
    pub open spec fn other(self) -> Color {
        match self {
            Color::White => Color::Black,
            Color::Black => Color::White,
        }
    }

    /// Position of this colour in tables indexed by colour.
    pub open spec fn index(self) -> int {
        match self {
            Color::White => 0,
            Color::Black => 1,
        }
    }

    #[inline(always)]
    pub fn opponent(self) -> (r: Color)
        ensures
            r == self.other(),
    {
        match self {
            Color::White => Color::Black,
            Color::Black => Color::White,
        }
    }

    #[inline(always)]
    pub fn idx(self) -> (r: usize)
        ensures
            r == self.index(),
            r < 2,
    {
        match self {
            Color::White => 0,
            Color::Black => 1,
        }
    }
}

#[derive(Copy, Clone, Debug, PartialEq, Eq, Structural)]
pub enum PieceType {
    Pawn,
    Knight,
    Bishop,
    Rook,
    Queen,
    King,
    NoPiece,
}

impl PieceType {
    /// Position of this type in tables indexed by piece type.
    pub open spec fn index(self) -> int {
        match self {
            PieceType::Pawn => 0,
            PieceType::Knight => 1,
            PieceType::Bishop => 2,
            PieceType::Rook => 3,
            PieceType::Queen => 4,
            PieceType::King => 5,
            PieceType::NoPiece => 6,
        }
    }

    pub open spec fn of_index(i: int) -> PieceType {
        if i == 0 {
            PieceType::Pawn
        } else if i == 1 {
            PieceType::Knight
        } else if i == 2 {
            PieceType::Bishop
        } else if i == 3 {
            PieceType::Rook
        } else if i == 4 {
            PieceType::Queen
        } else if i == 5 {
            PieceType::King
        } else {
            PieceType::NoPiece
        }
    }

    #[inline(always)]
    pub fn idx(self) -> (r: usize)
        ensures
            r == self.index(),
            r < 7,
            self != PieceType::NoPiece ==> r < 6,
    {
        match self {
            PieceType::Pawn => 0,
            PieceType::Knight => 1,
            PieceType::Bishop => 2,
            PieceType::Rook => 3,
            PieceType::Queen => 4,
            PieceType::King => 5,
            PieceType::NoPiece => 6,
        }
    }

    /// The piece type with the given index.
    #[inline(always)]
    pub fn from_idx(i: usize) -> (r: PieceType)
        requires
            i < 7,
        ensures
            r == PieceType::of_index(i as int),
            r.index() == i,
    {
        match i {
            0 => PieceType::Pawn,
            1 => PieceType::Knight,
            2 => PieceType::Bishop,
            3 => PieceType::Rook,
            4 => PieceType::Queen,
            5 => PieceType::King,
            _ => PieceType::NoPiece,
        }
    }
}

/// The six real piece types, in ascending order of value with the king last.
pub const PIECE_TYPES: [PieceType; 6] = [
    PieceType::Pawn,
    PieceType::Knight,
    PieceType::Bishop,
    PieceType::Rook,
    PieceType::Queen,
    PieceType::King,
];

/// Material value in centipawns.
pub open spec fn value_of(pt: PieceType) -> int {
    match pt {
        PieceType::Pawn => 100,
        PieceType::Knight => 320,
        PieceType::Bishop => 330,
        PieceType::Rook => 500,
        PieceType::Queen => 900,
        PieceType::King => 0,
        PieceType::NoPiece => 0,
    }
}

#[inline(always)]
pub fn piece_value(pt: PieceType) -> (r: i32)
    ensures
        r == value_of(pt),
        pt == PieceType::Pawn ==> r == 100,
        pt == PieceType::Knight ==> r == 320,
        pt == PieceType::Bishop ==> r == 330,
        pt == PieceType::Rook ==> r == 500,
        pt == PieceType::Queen ==> r == 900,
        pt == PieceType::King || pt == PieceType::NoPiece ==> r == 0,
{
    match pt {
        PieceType::Pawn => 100,
        PieceType::Knight => 320,
        PieceType::Bishop => 330,
        PieceType::Rook => 500,
        PieceType::Queen => 900,
        PieceType::King => 0,
        PieceType::NoPiece => 0,
    }
}

} // verus!
