//! The board segment: eight rows of digits and piece letters, decoded into
//! an eight by eight grid.

use crate::error::{Fault, PfenError};
use crate::piece::Piece;
use crate::split::{parts, split};
use vstd::prelude::*;

verus! {

/// One rank of the grid, file `a` first.
pub type Rank = [Option<Piece>; 8];

/// The whole grid, indexed by rank, then by file.
pub type Grid = [Rank; 8];

/// The squares of a grid as a sequence of ranks.
pub open spec fn grid_view(grid: Grid) -> Seq<Seq<Option<Piece>>> {
    Seq::new(8, |rank: int| grid[rank]@)
}

/// Whether `ch` is a digit that may stand in a row: `1` to `8`.
pub open spec fn is_gap(ch: char) -> bool {
    '1' <= ch <= '8'
}

/// The squares that one character of a row describes: a digit stands for
/// that many empty squares, any other character for the one square that
/// holds the piece it names.
pub open spec fn squares_of_char(ch: char) -> Seq<Option<Piece>> {
    if is_gap(ch) {
        Seq::new((ch as int - '0' as int) as nat, |i: int| None::<Piece>)
    } else {
        seq![Piece::of_char(ch)]
    }
}

/// The squares that a row describes, left to right: those of its
/// characters, one after the other.
pub open spec fn squares(row: Seq<char>) -> Seq<Option<Piece>>
    decreases row.len(),
{
    if row.len() == 0 {
        Seq::empty()
    } else {
        squares(row.drop_last()) + squares_of_char(row.last())
    }
}

/// What is wrong at position `at` of a row, taken by itself: the digits `0`
/// and `9` make the row too long, a character that is neither a digit nor a
/// piece letter is an invalid piece, and so does a character make the row
/// too long that carries the count of files past eight.
pub open spec fn fault_at(row: Seq<char>, at: int) -> Option<Fault> {
    let ch = row[at];
    if ch == '0' || ch == '9' {
        Some(Fault::RowTooLong(row))
    } else if !is_gap(ch) && Piece::of_char(ch) is None {
        Some(Fault::InvalidPiece(ch))
    } else if squares(row.take(at + 1)).len() > 8 {
        Some(Fault::RowTooLong(row))
    } else {
        None
    }
}

/// The first fault among the first `n` characters of a row.
pub open spec fn first_fault(row: Seq<char>, n: int) -> Option<Fault>
    decreases n,
{
    if n <= 0 {
        None
    } else {
        match first_fault(row, n - 1) {
            Some(fault) => Some(fault),
            None => fault_at(row, n - 1),
        }
    }
}

/// A fault, once met, is the row's first fault however far one reads on.
pub proof fn lemma_first_fault_stays(row: Seq<char>, met: int, n: int)
    requires
        met <= n,
        first_fault(row, met) is Some,
    ensures
        first_fault(row, n) == first_fault(row, met),
    decreases n - met,
{
    if met < n {
        lemma_first_fault_stays(row, met, n - 1);
    }
}

/// The rank that a row describes. The first fault in the row, reading left
/// to right, rejects it; a row without a fault that describes fewer than
/// eight files is too short.
pub open spec fn rank_of(row: Seq<char>) -> Result<Seq<Option<Piece>>, Fault> {
    match first_fault(row, row.len() as int) {
        Some(fault) => Err(fault),
        None => if squares(row).len() < 8 {
            Err(Fault::RowTooShort(row))
        } else {
            Ok(squares(row))
        },
    }
}

/// Decodes one row of the board segment.
pub fn decode_row<'a>(row: &'a str) -> (decoded: Result<Rank, PfenError<'a>>)
    ensures
        match rank_of(row@) {
            Ok(rank) => decoded is Ok && decoded->Ok_0@ == rank,
            Err(fault) => decoded is Err && decoded->Err_0@ == fault,
        },
{
    let mut rank: Rank = [None;8];
    let mut files: usize = 0;
    proof {
        assert(row@.take(0) =~= Seq::<char>::empty());
    }
    for ch in letters: row.chars()
        invariant
            letters.seq() == row@,
            first_fault(row@, letters.index()) is None,
            files == squares(row@.take(letters.index())).len(),
            files <= 8,
            forall|f: int| 0 <= f < files ==> rank@[f] == squares(row@.take(letters.index()))[f],
            forall|f: int| files <= f < 8 ==> rank@[f] is None,
    {
        let ghost at = letters.index();
        proof {
            assert(row@.take(at + 1).drop_last() =~= row@.take(at));
            assert(row@.take(at + 1).last() == ch);
        }
        let gap: usize = match ch {
            '1' => 1,
            '2' => 2,
            '3' => 3,
            '4' => 4,
            '5' => 5,
            '6' => 6,
            '7' => 7,
            '8' => 8,
            _ => 0,
        };
        if gap > 0 {
            files = files + gap;
        } else if ch == '0' || ch == '9' {
            proof {
                lemma_first_fault_stays(row@, at + 1, row@.len() as int);
            }
            return Err(PfenError::RowTooLong(row));
        } else {
            match Piece::try_from(ch) {
                Ok(piece) => {
                    if files < 8 {
                        rank[files] = Some(piece);
                    }
                    files = files + 1;
                },
                Err(_) => {
                    proof {
                        lemma_first_fault_stays(row@, at + 1, row@.len() as int);
                    }
                    return Err(PfenError::InvalidPiece(ch));
                },
            }
        }
        if files > 8 {
            proof {
                lemma_first_fault_stays(row@, at + 1, row@.len() as int);
            }
            return Err(PfenError::RowTooLong(row));
        }
    }
    proof {
        assert(row@.take(row@.len() as int) =~= row@);
    }
    if files < 8 {
        return Err(PfenError::RowTooShort(row));
    }
    proof {
        assert(rank@ =~= squares(row@));
    }
    Ok(rank)
}

/// The fault of the first faulty row among the first `n` rows.
pub open spec fn first_bad_row(rows: Seq<Seq<char>>, n: int) -> Option<Fault>
    decreases n,
{
    if n <= 0 {
        None
    } else {
        match first_bad_row(rows, n - 1) {
            Some(fault) => Some(fault),
            None => match rank_of(rows[n - 1]) {
                Ok(_) => None,
                Err(fault) => Some(fault),
            },
        }
    }
}

/// A faulty row, once met, is the first faulty row however far one reads
/// on.
pub proof fn lemma_first_bad_row_stays(rows: Seq<Seq<char>>, met: int, n: int)
    requires
        met <= n,
        first_bad_row(rows, met) is Some,
    ensures
        first_bad_row(rows, n) == first_bad_row(rows, met),
    decreases n - met,
{
    if met < n {
        lemma_first_bad_row_stays(rows, met, n - 1);
    }
}

/// The grid that a board segment describes. The segment is cut at `/` into
/// rows, which are read in order. A faulty row among the first eight rejects
/// the board with its fault; a ninth row rejects it as having too many rows;
/// fewer than eight rows are too few. The first row of the text is rank 7
/// of the grid and the last is rank 0.
pub open spec fn board_of(text: Seq<char>) -> Result<Seq<Seq<Option<Piece>>>, Fault> {
    let rows = parts(text, '/');
    let read = if rows.len() < 8 {
        rows.len() as int
    } else {
        8
    };
    match first_bad_row(rows, read) {
        Some(fault) => Err(fault),
        None => if rows.len() > 8 {
            Err(Fault::TooManyRows(text))
        } else if rows.len() < 8 {
            Err(Fault::TooFewRows(text))
        } else {
            Ok(Seq::new(8, |rank: int| squares(rows[7 - rank])))
        },
    }
}

/// Decodes the board segment.
pub fn decode_board<'a>(text: &'a str) -> (decoded: Result<Grid, PfenError<'a>>)
    ensures
        match board_of(text@) {
            Ok(grid) => decoded is Ok && grid_view(decoded->Ok_0) == grid,
            Err(fault) => decoded is Err && decoded->Err_0@ == fault,
        },
{
    let rows = split(text, '/');
    let mut grid: Grid = [[None;8];8];
    let mut i: usize = 0;
    while i < rows.len()
        invariant
            rows.len() == parts(text@, '/').len(),
            forall|k: int| 0 <= k < rows.len() ==> (#[trigger] rows[k])@ == parts(text@, '/')[k],
            i <= rows.len(),
            i <= 8,
            first_bad_row(parts(text@, '/'), i as int) is None,
            forall|k: int|
                0 <= k < i ==> (#[trigger] grid@[7 - k])@ == squares(parts(text@, '/')[k]),
        decreases rows.len() - i,
    {
        if i >= 8 {
            return Err(PfenError::TooManyRows(text));
        }
        let row: &'a str = rows[i];
        match decode_row(row) {
            Ok(rank) => {
                grid[7 - i] = rank;
            },
            Err(fault) => {
                proof {
                    let read: int = if rows.len() < 8 {
                        rows.len() as int
                    } else {
                        8
                    };
                    lemma_first_bad_row_stays(parts(text@, '/'), i + 1, read);
                }
                return Err(fault);
            },
        }
        i = i + 1;
    }
    if i < 8 {
        return Err(PfenError::TooFewRows(text));
    }
    proof {
        let rows_text = parts(text@, '/');
        assert forall|rank: int| 0 <= rank < 8 implies grid_view(grid)[rank] == squares(
            rows_text[7 - rank],
        ) by {
            assert(grid@[7 - (7 - rank)]@ == squares(rows_text[7 - rank]));
        }
        assert(grid_view(grid) =~= board_of(text@)->Ok_0);
    }
    Ok(grid)
}

} // verus!
