//! Pieces and colours, and the letters that stand for them.

use core::cmp::Ordering;
use vstd::prelude::*;
use vstd::std_specs::cmp::PartialOrdSpecImpl;
use vstd::std_specs::convert::TryFromSpecImpl;
use vstd::std_specs::ops::NotSpecImpl;

verus! {

/// The kind of piece in a square.
#[derive(Clone, Copy, Debug, PartialEq, Eq, Structural, PartialOrd, Ord, Hash)]
pub enum PieceKind {
    Pawn,
    Knight,
    Bishop,
    Rook,
    Queen,
    King,
}

impl Default for PieceKind {
    fn default() -> (kind: Self)
        ensures
            kind == PieceKind::Pawn,
    {
        PieceKind::Pawn
    }
}

/// A chess colour. `White` is the default and the greater of the two.
#[derive(Clone, Copy, Debug, PartialEq, Eq, Structural, Ord, Hash)]
pub enum Color {
    Black,
    White,
}

impl PartialOrd for Color {
    fn partial_cmp(&self, other: &Color) -> (order: Option<Ordering>) {
        match (*self, *other) {
            (Color::Black, Color::White) => Some(Ordering::Less),
            (Color::White, Color::Black) => Some(Ordering::Greater),
            _ => Some(Ordering::Equal),
        }
    }
}

impl PartialOrdSpecImpl for Color {
    open spec fn obeys_partial_cmp_spec() -> bool {
        true
    }

    /// Black comes before white.
    open spec fn partial_cmp_spec(&self, other: &Color) -> Option<Ordering> {
        if *self == *other {
            Some(Ordering::Equal)
        } else if *self == Color::Black {
            Some(Ordering::Less)
        } else {
            Some(Ordering::Greater)
        }
    }
}

impl Default for Color {
    fn default() -> (color: Self)
        ensures
            color == Color::White,
    {
        Color::White
    }
}

impl Color {
    /// The other colour.
    pub open spec fn opposite(self) -> Color {
        match self {
            Color::Black => Color::White,
            Color::White => Color::Black,
        }
    }

    /// The colour that a turn letter names: `w` is white, `b` is black, and
    /// no other character names a colour.
    pub open spec fn of_char(ch: char) -> Option<Color> {
        if ch == 'w' {
            Some(Color::White)
        } else if ch == 'b' {
            Some(Color::Black)
        } else {
            None
        }
    }
}

impl core::ops::Not for Color {
    type Output = Color;

    fn not(self) -> (other: Color) {
        match self {
            Color::Black => Color::White,
            Color::White => Color::Black,
        }
    }
}

impl NotSpecImpl for Color {
    open spec fn obeys_not_spec() -> bool {
        true
    }

    open spec fn not_req(self) -> bool {
        true
    }

    open spec fn not_spec(self) -> Color {
        self.opposite()
    }
}

impl TryFrom<char> for Color {
    type Error = ();

    fn try_from(ch: char) -> (decoded: Result<Color, ()>) {
        match ch {
            'w' => Ok(Color::White),
            'b' => Ok(Color::Black),
            _ => Err(()),
        }
    }
}

impl TryFromSpecImpl<char> for Color {
    open spec fn obeys_try_from_spec() -> bool {
        true
    }

    open spec fn try_from_spec(ch: char) -> Result<Color, ()> {
        match Color::of_char(ch) {
            Some(color) => Ok(color),
            None => Err(()),
        }
    }
}

/// A piece on the board: what it is and whose it is.
#[derive(Clone, Copy, Debug, PartialEq, Eq, Structural, PartialOrd, Ord, Hash)]
pub struct Piece {
    pub kind: PieceKind,
    pub color: Color,
}

impl Default for Piece {
    fn default() -> (piece: Self)
        ensures
            piece == (Piece { kind: PieceKind::Pawn, color: Color::White }),
    {
        Piece { kind: PieceKind::Pawn, color: Color::White }
    }
}

impl Piece {
    /// The kind that a letter names, whatever its case.
    pub open spec fn kind_of_letter(lower: char) -> Option<PieceKind> {
        if lower == 'p' {
            Some(PieceKind::Pawn)
        } else if lower == 'n' {
            Some(PieceKind::Knight)
        } else if lower == 'b' {
            Some(PieceKind::Bishop)
        } else if lower == 'r' {
            Some(PieceKind::Rook)
        } else if lower == 'q' {
            Some(PieceKind::Queen)
        } else if lower == 'k' {
            Some(PieceKind::King)
        } else {
            None
        }
    }

    /// The lower-case form of an upper-case ASCII letter.
    pub open spec fn lowered(ch: char) -> char
        recommends
            'A' <= ch <= 'Z',
    {
        ((ch as u8) + 32u8) as char
    }

    /// The piece that a board letter names. A lower-case letter of `pnbrqk`
    /// is a black piece, the same letter in upper case is the white piece of
    /// that kind, and no other character names a piece.
    pub open spec fn of_char(ch: char) -> Option<Piece> {
        if 'a' <= ch <= 'z' {
            match Piece::kind_of_letter(ch) {
                Some(kind) => Some(Piece { kind, color: Color::Black }),
                None => None,
            }
        } else if 'A' <= ch <= 'Z' {
            match Piece::kind_of_letter(Piece::lowered(ch)) {
                Some(kind) => Some(Piece { kind, color: Color::White }),
                None => None,
            }
        } else {
            None
        }
    }
}

impl TryFrom<char> for Piece {
    type Error = ();

    fn try_from(ch: char) -> (decoded: Result<Piece, ()>) {
        match ch {
            'p' => Ok(Piece { kind: PieceKind::Pawn, color: Color::Black }),
            'n' => Ok(Piece { kind: PieceKind::Knight, color: Color::Black }),
            'b' => Ok(Piece { kind: PieceKind::Bishop, color: Color::Black }),
            'r' => Ok(Piece { kind: PieceKind::Rook, color: Color::Black }),
            'q' => Ok(Piece { kind: PieceKind::Queen, color: Color::Black }),
            'k' => Ok(Piece { kind: PieceKind::King, color: Color::Black }),
            'P' => Ok(Piece { kind: PieceKind::Pawn, color: Color::White }),
            'N' => Ok(Piece { kind: PieceKind::Knight, color: Color::White }),
            'B' => Ok(Piece { kind: PieceKind::Bishop, color: Color::White }),
            'R' => Ok(Piece { kind: PieceKind::Rook, color: Color::White }),
            'Q' => Ok(Piece { kind: PieceKind::Queen, color: Color::White }),
            'K' => Ok(Piece { kind: PieceKind::King, color: Color::White }),
            _ => Err(()),
        }
    }
}

impl TryFromSpecImpl<char> for Piece {
    open spec fn obeys_try_from_spec() -> bool {
        true
    }

    open spec fn try_from_spec(ch: char) -> Result<Piece, ()> {
        match Piece::of_char(ch) {
            Some(piece) => Ok(piece),
            None => Err(()),
        }
    }
}

} // verus!
