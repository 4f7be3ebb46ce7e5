//! What holds of decoding as a whole, stated over the functions that say
//! what a record describes.

use crate::board::{board_of, first_bad_row, first_fault, is_gap, rank_of, squares};
use crate::board::{lemma_first_bad_row_stays, lemma_first_fault_stays};
use crate::error::{Fault, PfenError};
use crate::fields::{counter_of, en_passant_of, turn_of, Castling};
use crate::piece::{Color, Piece, PieceKind};
use crate::record::{decodes_to, record_of, Pfen, Position};
use crate::split::{lemma_parts_partition, occurrences, parts};
use vstd::prelude::*;

verus! {

/// Decoding has no hidden state: two outcomes of decoding the same text are
/// the same position, or carry the same fault.
pub proof fn lemma_same_text_same_outcome(
    fen: Seq<char>,
    first: Result<Pfen, PfenError<'_>>,
    second: Result<Pfen, PfenError<'_>>,
)
    requires
        decodes_to(fen, first),
        decodes_to(fen, second),
    ensures
        first is Ok <==> second is Ok,
        first is Ok ==> first->Ok_0 == second->Ok_0,
        first is Err ==> first->Err_0@ == second->Err_0@,
{
    if first is Ok {
        let a = first->Ok_0;
        let b = second->Ok_0;
        assert(a@.board == b@.board);
        assert forall|rank: int| 0 <= rank < 8 implies a.board[rank] == b.board[rank] by {
            assert(a@.board[rank] == b@.board[rank]);
            assert(a.board[rank]@ == b.board[rank]@);
            assert(a.board[rank] =~= b.board[rank]);
        }
        assert(a.board =~= b.board);
    }
}

/// A record that spaces cut into fewer or more than six segments is
/// rejected for that, whatever else is wrong with it, and the error carries
/// the number of segments: one more than there are spaces.
pub proof fn lemma_segment_count(fen: Seq<char>)
    requires
        occurrences(fen, ' ') != 5,
    ensures
        occurrences(fen, ' ') < 5 ==> record_of(fen) == Err::<Position, Fault>(
            Fault::TooFewSegments(occurrences(fen, ' ') + 1),
        ),
        occurrences(fen, ' ') > 5 ==> record_of(fen) == Err::<Position, Fault>(
            Fault::TooManySegments(occurrences(fen, ' ') + 1),
        ),
{
    lemma_parts_partition(fen, ' ');
}

/// Whether every character of a row is a digit `1` to `8` or a piece
/// letter.
pub open spec fn well_spelled(row: Seq<char>) -> bool {
    forall|i: int| 0 <= i < row.len() ==> is_gap(#[trigger] row[i]) || Piece::of_char(row[i]) is Some
}

/// The squares described by the start of a row are the first of the squares
/// described by the whole row.
pub proof fn lemma_squares_prefix(row: Seq<char>, n: int)
    requires
        0 <= n <= row.len(),
    ensures
        squares(row.take(n)).len() <= squares(row).len(),
        squares(row.take(n)) == squares(row).take(squares(row.take(n)).len() as int),
    decreases row.len() - n,
{
    if n == row.len() {
        assert(row.take(n) =~= row);
        assert(squares(row) =~= squares(row).take(squares(row).len() as int));
    } else {
        lemma_squares_prefix(row, n + 1);
        assert(row.take(n + 1).drop_last() =~= row.take(n));
        assert(squares(row.take(n)) =~= squares(row).take(squares(row.take(n)).len() as int));
    }
}

/// In a row of digits `1` to `8` and piece letters, the only fault that
/// reading the first `n` characters can meet is that the row is too long,
/// and it is met exactly if they describe more than eight files.
pub proof fn lemma_well_spelled_fault(row: Seq<char>, n: int)
    requires
        well_spelled(row),
        0 <= n <= row.len(),
    ensures
        first_fault(row, n) == if squares(row.take(n)).len() > 8 {
            Some(Fault::RowTooLong(row))
        } else {
            None
        },
    decreases n,
{
    if n == 0 {
        assert(row.take(0) =~= Seq::<char>::empty());
    } else {
        lemma_well_spelled_fault(row, n - 1);
        assert(row.take(n).drop_last() =~= row.take(n - 1));
        assert(row.take(n).last() == row[n - 1]);
        assert(is_gap(row[n - 1]) || Piece::of_char(row[n - 1]) is Some);
    }
}

/// A row of digits `1` to `8` and piece letters is judged by the number of
/// files that it describes: fewer than eight make it too short, more than
/// eight too long, and eight make it the rank of the squares described.
pub proof fn lemma_row_by_file_count(row: Seq<char>)
    requires
        well_spelled(row),
    ensures
        squares(row).len() < 8 ==> rank_of(row) == Err::<Seq<Option<Piece>>, _>(
            Fault::RowTooShort(row),
        ),
        squares(row).len() > 8 ==> rank_of(row) == Err::<Seq<Option<Piece>>, _>(
            Fault::RowTooLong(row),
        ),
        squares(row).len() == 8 ==> rank_of(row) == Ok::<_, Fault>(squares(row)),
{
    lemma_well_spelled_fault(row, row.len() as int);
    assert(row.take(row.len() as int) =~= row);
}

/// Whether the five fields after the board are all well formed.
pub open spec fn fields_accepted(segments: Seq<Seq<char>>) -> bool {
    &&& turn_of(segments[1]) is Some
    &&& Castling::of_text(segments[2]) is Some
    &&& en_passant_of(segments[3]) is Some
    &&& counter_of(segments[4]) is Some
    &&& counter_of(segments[5]) is Some
}

/// A record of six segments with well-formed fields is rejected where a row
/// of its board does not describe exactly eight files. Let the row at
/// `index` be among the first eight, be made of digits `1` to `8` and piece
/// letters, and follow only rows that are accepted: then the record is
/// rejected with that row, as too short or as too long.
pub proof fn lemma_row_of_wrong_width(fen: Seq<char>, index: int)
    requires
        parts(fen, ' ').len() == 6,
        fields_accepted(parts(fen, ' ')),
        0 <= index < parts(parts(fen, ' ')[0], '/').len(),
        index < 8,
        forall|k: int| 0 <= k < index ==> rank_of(#[trigger] parts(parts(fen, ' ')[0], '/')[k]) is Ok,
        well_spelled(parts(parts(fen, ' ')[0], '/')[index]),
        squares(parts(parts(fen, ' ')[0], '/')[index]).len() != 8,
    ensures
        record_of(fen) == Err::<Position, Fault>(
            if squares(parts(parts(fen, ' ')[0], '/')[index]).len() < 8 {
                Fault::RowTooShort(parts(parts(fen, ' ')[0], '/')[index])
            } else {
                Fault::RowTooLong(parts(parts(fen, ' ')[0], '/')[index])
            },
        ),
{
    let rows = parts(parts(fen, ' ')[0], '/');
    let read: int = if rows.len() < 8 {
        rows.len() as int
    } else {
        8
    };
    lemma_row_by_file_count(rows[index]);
    lemma_none_bad_before(rows, index);
    lemma_first_bad_row_stays(rows, index + 1, read);
}

/// Where each of the first `n` rows is accepted, none of them is faulty.
pub proof fn lemma_none_bad_before(rows: Seq<Seq<char>>, n: int)
    requires
        forall|k: int| 0 <= k < n ==> rank_of(#[trigger] rows[k]) is Ok,
    ensures
        first_bad_row(rows, n) is None,
    decreases n,
{
    if n > 0 {
        lemma_none_bad_before(rows, n - 1);
        assert(rank_of(rows[n - 1]) is Ok);
    }
}

/// A record of six segments whose turn segment is anything but `w` or `b`
/// is rejected as having an invalid colour, and the error carries the
/// segment as it stands.
pub proof fn lemma_turn_rejected(fen: Seq<char>)
    requires
        parts(fen, ' ').len() == 6,
        parts(fen, ' ')[1] != seq!['w'],
        parts(fen, ' ')[1] != seq!['b'],
    ensures
        record_of(fen) == Err::<Position, Fault>(Fault::InvalidColor(parts(fen, ' ')[1])),
{
    let turn = parts(fen, ' ')[1];
    if turn.len() == 1 {
        if turn[0] == 'w' {
            assert(turn =~= seq!['w']);
        }
        if turn[0] == 'b' {
            assert(turn =~= seq!['b']);
        }
    }
}

/// Whether a castling segment is `-` or one to four letters of `KQkq`.
pub open spec fn castling_spelled(text: Seq<char>) -> bool {
    text == seq!['-'] || (1 <= text.len() <= 4 && forall|i: int|
        0 <= i < text.len() ==> Castling::is_letter(#[trigger] text[i]))
}

/// A record of six segments with a valid turn whose castling segment is
/// neither `-` nor one to four letters of `KQkq` is rejected as having
/// invalid castling, and the error carries the segment as it stands.
pub proof fn lemma_castling_rejected(fen: Seq<char>)
    requires
        parts(fen, ' ').len() == 6,
        turn_of(parts(fen, ' ')[1]) is Some,
        !castling_spelled(parts(fen, ' ')[2]),
    ensures
        record_of(fen) == Err::<Position, Fault>(Fault::InvalidCastling(parts(fen, ' ')[2])),
{
}

/// The letter that stands for a piece on the board: its kind gives the
/// letter and its colour the case, upper for white and lower for black.
pub open spec fn letter_of(piece: Piece) -> char {
    match (piece.color, piece.kind) {
        (Color::Black, PieceKind::Pawn) => 'p',
        (Color::Black, PieceKind::Knight) => 'n',
        (Color::Black, PieceKind::Bishop) => 'b',
        (Color::Black, PieceKind::Rook) => 'r',
        (Color::Black, PieceKind::Queen) => 'q',
        (Color::Black, PieceKind::King) => 'k',
        (Color::White, PieceKind::Pawn) => 'P',
        (Color::White, PieceKind::Knight) => 'N',
        (Color::White, PieceKind::Bishop) => 'B',
        (Color::White, PieceKind::Rook) => 'R',
        (Color::White, PieceKind::Queen) => 'Q',
        (Color::White, PieceKind::King) => 'K',
    }
}

/// A character names a piece exactly if it is that piece's letter.
pub proof fn lemma_letter_names_piece(ch: char, piece: Piece)
    ensures
        Piece::of_char(ch) == Some(piece) <==> ch == letter_of(piece),
{
}

/// In an accepted record, every piece letter of the board segment is found
/// again on the grid. The letter at position `at` of the row written at
/// `index` stands on rank `7 - index`, on the file given by the number of
/// squares that the row describes before it, and the square holds the piece
/// that the letter names by its case and kind.
pub proof fn lemma_piece_where_written(fen: Seq<char>, index: int, at: int)
    requires
        record_of(fen) is Ok,
        0 <= index < 8,
        0 <= at < parts(parts(fen, ' ')[0], '/')[index].len(),
        !is_gap(parts(parts(fen, ' ')[0], '/')[index][at]),
    ensures
        parts(parts(fen, ' ')[0], '/').len() == 8,
        squares(parts(parts(fen, ' ')[0], '/')[index].take(at)).len() < 8,
        Piece::of_char(parts(parts(fen, ' ')[0], '/')[index][at]) is Some,
        record_of(fen)->Ok_0.board[7 - index][squares(
            parts(parts(fen, ' ')[0], '/')[index].take(at),
        ).len() as int] == Piece::of_char(parts(parts(fen, ' ')[0], '/')[index][at]),
        parts(parts(fen, ' ')[0], '/')[index][at] == letter_of(
            record_of(fen)->Ok_0.board[7 - index][squares(
                parts(parts(fen, ' ')[0], '/')[index].take(at),
            ).len() as int]->Some_0,
        ),
{
    let rows = parts(parts(fen, ' ')[0], '/');
    let row = rows[index];
    assert(board_of(parts(fen, ' ')[0]) is Ok);
    assert(rows.len() == 8);
    assert(first_bad_row(rows, 8) is None);
    if rank_of(row) is Err {
        lemma_bad_row_is_met(rows, index, 8);
    }
    assert(rank_of(row) is Ok);
    assert(first_fault(row, row.len() as int) is None);
    if first_fault(row, at + 1) is Some {
        lemma_first_fault_stays(row, at + 1, row.len() as int);
    }
    assert(first_fault(row, at + 1) is None);
    lemma_squares_prefix(row, at + 1);
    assert(row.take(at + 1).drop_last() =~= row.take(at));
    assert(row.take(at + 1).last() == row[at]);
    let file = squares(row.take(at)).len() as int;
    assert(squares(row.take(at + 1))[file] == Piece::of_char(row[at]));
    assert(squares(row)[file] == squares(row).take(file + 1)[file]);
    assert(record_of(fen)->Ok_0.board[7 - index] == squares(rows[7 - (7 - index)]));
}

/// An accepted row describes exactly eight files.
pub proof fn lemma_accepted_row_width(row: Seq<char>)
    requires
        rank_of(row) is Ok,
    ensures
        rank_of(row) == Ok::<_, Fault>(squares(row)),
        squares(row).len() == 8,
{
    assert(row.take(row.len() as int) =~= row);
}

/// A record is accepted only as a well-formed position: eight ranks of
/// eight squares, and an en-passant target, if any, that lies on the board.
pub proof fn lemma_accepted_is_well_formed(fen: Seq<char>)
    ensures
        record_of(fen) is Ok ==> record_of(fen)->Ok_0.well_formed(),
{
    if record_of(fen) is Ok {
        let rows = parts(parts(fen, ' ')[0], '/');
        let position = record_of(fen)->Ok_0;
        assert forall|rank: int| 0 <= rank < 8 implies (#[trigger] position.board[rank]).len()
            == 8 by {
            if rank_of(rows[7 - rank]) is Err {
                lemma_bad_row_is_met(rows, 7 - rank, 8);
            }
            lemma_accepted_row_width(rows[7 - rank]);
        }
    }
}

/// A faulty row among the first `n` rows makes them hold a faulty row.
pub proof fn lemma_bad_row_is_met(rows: Seq<Seq<char>>, index: int, n: int)
    requires
        0 <= index < n,
        rank_of(rows[index]) is Err,
    ensures
        first_bad_row(rows, n) is Some,
    decreases n,
{
    if index < n - 1 {
        lemma_bad_row_is_met(rows, index, n - 1);
    }
}

} // verus!
