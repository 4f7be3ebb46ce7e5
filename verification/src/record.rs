//! The whole record: six segments separated by single spaces, decoded into
//! a position.

use crate::board::{board_of, decode_board, grid_view, Grid};
use crate::error::{Fault, PfenError};
use crate::fields::{
    counter_of,
    decode_counter,
    decode_turn,
    en_passant_of,
    parse_en_passant,
    turn_of,
    Castling,
};
use crate::laws::lemma_accepted_is_well_formed;
use crate::piece::{Color, Piece};
use crate::split::{parts, split};
use vstd::prelude::*;

verus! {

/// A chess position as a record describes it.
///
/// The board is indexed by rank, then by file. Rank 7 is the row that the
/// record writes first and rank 0 the row that it writes last.
#[derive(Clone, Copy, Debug, PartialEq, Eq, Hash)]
pub struct Pfen {
    pub board: [[Option<Piece>; 8]; 8],
    pub turn: Color,
    pub castling: Castling,
    pub en_passant: Option<(u8, u8)>,
    pub halfmove: u32,
    pub fullmove: u32,
}

/// The mathematical content of a [`Pfen`]: the same fields, with the board
/// as a sequence of eight ranks of eight squares each.
pub ghost struct Position {
    pub board: Seq<Seq<Option<Piece>>>,
    pub turn: Color,
    pub castling: Castling,
    pub en_passant: Option<(u8, u8)>,
    pub halfmove: u32,
    pub fullmove: u32,
}

impl Position {
    /// Whether the board has eight ranks of eight squares each and the
    /// en-passant target, if there is one, lies on the board.
    pub open spec fn well_formed(self) -> bool {
        &&& self.board.len() == 8
        &&& forall|rank: int| 0 <= rank < 8 ==> (#[trigger] self.board[rank]).len() == 8
        &&& match self.en_passant {
            Some((file, rank)) => file < 8 && rank < 8,
            None => true,
        }
    }
}

impl View for Pfen {
    type V = Position;

    open spec fn view(&self) -> Position {
        Position {
            board: grid_view(self.board),
            turn: self.turn,
            castling: self.castling,
            en_passant: self.en_passant,
            halfmove: self.halfmove,
            fullmove: self.fullmove,
        }
    }
}

impl Default for Pfen {
    fn default() -> (empty: Self)
        ensures
            forall|rank: int, file: int|
                0 <= rank < 8 && 0 <= file < 8 ==> (#[trigger] empty.board[rank][file]) is None,
            empty.turn == Color::White,
            empty.castling == Castling::none(),
            empty.en_passant is None,
            empty.halfmove == 0,
            empty.fullmove == 0,
    {
        Pfen {
            board: [[None;8];8],
            turn: Color::White,
            castling: Castling::default(),
            en_passant: None,
            halfmove: 0,
            fullmove: 0,
        }
    }
}

/// The position that a record describes, or the fault for which it is
/// rejected.
///
/// The record is cut at every space and must have exactly six segments:
/// board, turn, castling, en passant, halfmove and fullmove. The count of
/// segments is judged first. Then the fields are judged in the order turn,
/// castling, en passant, halfmove, fullmove, and the board last; the first
/// fault met rejects the record.
pub open spec fn record_of(fen: Seq<char>) -> Result<Position, Fault> {
    let segments = parts(fen, ' ');
    if segments.len() < 6 {
        Err(Fault::TooFewSegments(segments.len()))
    } else if segments.len() > 6 {
        Err(Fault::TooManySegments(segments.len()))
    } else if turn_of(segments[1]) is None {
        Err(Fault::InvalidColor(segments[1]))
    } else if Castling::of_text(segments[2]) is None {
        Err(Fault::InvalidCastling(segments[2]))
    } else if en_passant_of(segments[3]) is None {
        Err(Fault::InvalidEnPassant(segments[3]))
    } else if counter_of(segments[4]) is None {
        Err(Fault::InvalidHalfmove(segments[4]))
    } else if counter_of(segments[5]) is None {
        Err(Fault::InvalidFullmove(segments[5]))
    } else {
        match board_of(segments[0]) {
            Err(fault) => Err(fault),
            Ok(board) => Ok(
                Position {
                    board,
                    turn: turn_of(segments[1])->Some_0,
                    castling: Castling::of_text(segments[2])->Some_0,
                    en_passant: en_passant_of(segments[3])->Some_0,
                    halfmove: counter_of(segments[4])->Some_0,
                    fullmove: counter_of(segments[5])->Some_0,
                },
            ),
        }
    }
}

/// Whether `outcome` is what decoding `fen` gives: the position that the
/// record describes, or the error that carries its fault.
pub open spec fn decodes_to(fen: Seq<char>, outcome: Result<Pfen, PfenError<'_>>) -> bool {
    match record_of(fen) {
        Ok(position) => outcome is Ok && outcome->Ok_0@ == position,
        Err(fault) => outcome is Err && outcome->Err_0@ == fault,
    }
}

/// Decodes a record into a position, or says why it is rejected. Errors
/// that carry text borrow it from `fen`.
pub fn parse<'a>(fen: &'a str) -> (outcome: Result<Pfen, PfenError<'a>>)
    ensures
        decodes_to(fen@, outcome),
        outcome is Ok ==> outcome->Ok_0@.well_formed(),
{
    proof {
        lemma_accepted_is_well_formed(fen@);
    }
    let segments = split(fen, ' ');
    let count: usize = segments.len();
    if count < 6 {
        return Err(PfenError::TooFewSegments(count));
    }
    if count > 6 {
        return Err(PfenError::TooManySegments(count));
    }
    let turn_text: &'a str = segments[1];
    let turn = match decode_turn(turn_text) {
        Some(turn) => turn,
        None => {
            return Err(PfenError::InvalidColor(turn_text));
        },
    };
    let castling_text: &'a str = segments[2];
    let castling = match Castling::decode(castling_text) {
        Some(castling) => castling,
        None => {
            return Err(PfenError::InvalidCastling(castling_text));
        },
    };
    let en_passant_text: &'a str = segments[3];
    let en_passant = match parse_en_passant(en_passant_text) {
        Some(en_passant) => en_passant,
        None => {
            return Err(PfenError::InvalidEnPassant(en_passant_text));
        },
    };
    let halfmove_text: &'a str = segments[4];
    let halfmove = match decode_counter(halfmove_text) {
        Some(halfmove) => halfmove,
        None => {
            return Err(PfenError::InvalidHalfmove(halfmove_text));
        },
    };
    let fullmove_text: &'a str = segments[5];
    let fullmove = match decode_counter(fullmove_text) {
        Some(fullmove) => fullmove,
        None => {
            return Err(PfenError::InvalidFullmove(fullmove_text));
        },
    };
    let board_text: &'a str = segments[0];
    let board: Grid = match decode_board(board_text) {
        Ok(board) => board,
        Err(fault) => {
            return Err(fault);
        },
    };
    Ok(Pfen { board, turn, castling, en_passant, halfmove, fullmove })
}

} // verus!
