//! The ways in which a record can be rejected.

use vstd::prelude::*;

verus! {

/// Why a record was rejected. Variants that carry text borrow the offending
/// part of the record, unmodified.
#[derive(Debug, PartialEq, Eq, Hash)]
pub enum PfenError<'fen> {
    /// The board has fewer than eight rows; carries the board segment.
    TooFewRows(&'fen str),
    /// The board has more than eight rows; carries the board segment.
    TooManyRows(&'fen str),
    /// A row describes more than eight files; carries the row.
    RowTooLong(&'fen str),
    /// A row describes fewer than eight files; carries the row.
    RowTooShort(&'fen str),
    /// A board character is neither a digit nor a piece letter.
    InvalidPiece(char),
    /// The turn segment is not `w` or `b`; carries the segment.
    InvalidColor(&'fen str),
    /// The castling segment is malformed; carries the segment.
    InvalidCastling(&'fen str),
    /// The en-passant segment is malformed; carries the segment.
    InvalidEnPassant(&'fen str),
    /// The halfmove clock is not an unsigned number; carries the segment.
    InvalidHalfmove(&'fen str),
    /// The fullmove number is not an unsigned number; carries the segment.
    InvalidFullmove(&'fen str),
    /// The record has fewer than six segments; carries how many it has.
    TooFewSegments(usize),
    /// The record has more than six segments; carries how many it has.
    TooManySegments(usize),
}

impl<'fen> Clone for PfenError<'fen> {
    fn clone(&self) -> (copy: Self)
        ensures
            copy == *self,
    {
        match *self {
            PfenError::TooFewRows(text) => PfenError::TooFewRows(text),
            PfenError::TooManyRows(text) => PfenError::TooManyRows(text),
            PfenError::RowTooLong(text) => PfenError::RowTooLong(text),
            PfenError::RowTooShort(text) => PfenError::RowTooShort(text),
            PfenError::InvalidPiece(ch) => PfenError::InvalidPiece(ch),
            PfenError::InvalidColor(text) => PfenError::InvalidColor(text),
            PfenError::InvalidCastling(text) => PfenError::InvalidCastling(text),
            PfenError::InvalidEnPassant(text) => PfenError::InvalidEnPassant(text),
            PfenError::InvalidHalfmove(text) => PfenError::InvalidHalfmove(text),
            PfenError::InvalidFullmove(text) => PfenError::InvalidFullmove(text),
            PfenError::TooFewSegments(count) => PfenError::TooFewSegments(count),
            PfenError::TooManySegments(count) => PfenError::TooManySegments(count),
        }
    }
}

/// The mathematical content of a [`PfenError`]: the same variants, with the
/// carried text as a sequence of characters and the carried count as a
/// natural number.
pub ghost enum Fault {
    TooFewRows(Seq<char>),
    TooManyRows(Seq<char>),
    RowTooLong(Seq<char>),
    RowTooShort(Seq<char>),
    InvalidPiece(char),
    InvalidColor(Seq<char>),
    InvalidCastling(Seq<char>),
    InvalidEnPassant(Seq<char>),
    InvalidHalfmove(Seq<char>),
    InvalidFullmove(Seq<char>),
    TooFewSegments(nat),
    TooManySegments(nat),
}

impl<'fen> View for PfenError<'fen> {
    type V = Fault;

    open spec fn view(&self) -> Fault {
        match *self {
            PfenError::TooFewRows(text) => Fault::TooFewRows(text@),
            PfenError::TooManyRows(text) => Fault::TooManyRows(text@),
            PfenError::RowTooLong(text) => Fault::RowTooLong(text@),
            PfenError::RowTooShort(text) => Fault::RowTooShort(text@),
            PfenError::InvalidPiece(ch) => Fault::InvalidPiece(ch),
            PfenError::InvalidColor(text) => Fault::InvalidColor(text@),
            PfenError::InvalidCastling(text) => Fault::InvalidCastling(text@),
            PfenError::InvalidEnPassant(text) => Fault::InvalidEnPassant(text@),
            PfenError::InvalidHalfmove(text) => Fault::InvalidHalfmove(text@),
            PfenError::InvalidFullmove(text) => Fault::InvalidFullmove(text@),
            PfenError::TooFewSegments(count) => Fault::TooFewSegments(count as nat),
            PfenError::TooManySegments(count) => Fault::TooManySegments(count as nat),
        }
    }
}

} // verus!
