//! Decoder for PFEN records: a one-line textual description of a chess
//! position, turned into a typed board or a precise error.

pub mod board;
pub mod error;
pub mod fields;
pub mod laws;
pub mod piece;
pub mod record;
pub mod split;

pub use error::{Fault, PfenError};
pub use fields::{parse_en_passant, Castling};
pub use piece::{Color, Piece, PieceKind};
pub use record::{parse, Pfen, Position};
