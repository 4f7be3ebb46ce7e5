//! The five scalar fields of a record: side to move, castling rights,
//! en-passant target and the two move counters.

use crate::piece::Color;
use vstd::prelude::*;
use vstd::string::StrSliceExecFns;

verus! {

/// The side to move that a turn segment names: the segment must be the one
/// character `w` or `b`.
pub open spec fn turn_of(text: Seq<char>) -> Option<Color> {
    if text.len() == 1 {
        Color::of_char(text[0])
    } else {
        None
    }
}

/// Decodes the turn segment.
pub fn decode_turn(text: &str) -> (turn: Option<Color>)
    ensures
        turn == turn_of(text@),
{
    if text.unicode_len() != 1 {
        return None;
    }
    match Color::try_from(text.get_char(0)) {
        Ok(color) => Some(color),
        Err(_) => None,
    }
}

/// Which castling moves are still allowed, for each side and wing.
#[derive(Clone, Copy, Debug, PartialEq, Eq, Structural, Hash)]
pub struct Castling {
    pub white_kingside: bool,
    pub white_queenside: bool,
    pub black_kingside: bool,
    pub black_queenside: bool,
}

impl Default for Castling {
    fn default() -> (none: Self)
        ensures
            none == Castling::none(),
    {
        Castling {
            white_kingside: false,
            white_queenside: false,
            black_kingside: false,
            black_queenside: false,
        }
    }
}

impl Castling {
    /// No right at all.
    pub open spec fn none() -> Castling {
        Castling {
            white_kingside: false,
            white_queenside: false,
            black_kingside: false,
            black_queenside: false,
        }
    }

    /// Whether `ch` is one of the four letters that grant a right.
    pub open spec fn is_letter(ch: char) -> bool {
        ch == 'K' || ch == 'Q' || ch == 'k' || ch == 'q'
    }

    /// The rights that a castling segment grants. `-` grants none. Any other
    /// segment must be one to four letters of `KQkq`, in any order and with
    /// repetitions allowed; a right is granted exactly if its letter occurs.
    pub open spec fn of_text(text: Seq<char>) -> Option<Castling> {
        if text == seq!['-'] {
            Some(Castling::none())
        } else if 1 <= text.len() <= 4 && (forall|i: int|
            0 <= i < text.len() ==> Castling::is_letter(#[trigger] text[i])) {
            Some(
                Castling {
                    white_kingside: text.contains('K'),
                    white_queenside: text.contains('Q'),
                    black_kingside: text.contains('k'),
                    black_queenside: text.contains('q'),
                },
            )
        } else {
            None
        }
    }

    /// Decodes the castling segment.
    pub fn decode(text: &str) -> (rights: Option<Castling>)
        ensures
            rights == Castling::of_text(text@),
    {
        let n: usize = text.unicode_len();
        if n == 1 && text.get_char(0) == '-' {
            assert(text@ =~= seq!['-']);
            return Some(Castling::default());
        }
        if n > 4 || n == 0 {
            return None;
        }
        let mut rights = Castling::default();
        let mut i: usize = 0;
        while i < n
            invariant
                n == text@.len(),
                1 <= n <= 4,
                i <= n,
                text@ != seq!['-'],
                forall|k: int| 0 <= k < i ==> Castling::is_letter(#[trigger] text@[k]),
                rights.white_kingside == text@.take(i as int).contains('K'),
                rights.white_queenside == text@.take(i as int).contains('Q'),
                rights.black_kingside == text@.take(i as int).contains('k'),
                rights.black_queenside == text@.take(i as int).contains('q'),
            decreases n - i,
        {
            let ch = text.get_char(i);
            proof {
                let seen = text@.take(i as int);
                let next = text@.take(i + 1);
                assert(next =~= seen.push(ch));
                assert(next[i as int] == ch);
                assert forall|c: char| next.contains(c) == (seen.contains(c) || c == ch) by {
                    if seen.contains(c) {
                        let k = choose|k: int| 0 <= k < seen.len() && seen[k] == c;
                        assert(next[k] == c);
                    }
                    if next.contains(c) && c != ch {
                        let k = choose|k: int| 0 <= k < next.len() && next[k] == c;
                        assert(seen[k] == c);
                    }
                }
            }
            match ch {
                'q' => {
                    rights.black_queenside = true;
                },
                'Q' => {
                    rights.white_queenside = true;
                },
                'k' => {
                    rights.black_kingside = true;
                },
                'K' => {
                    rights.white_kingside = true;
                },
                _ => {
                    return None;
                },
            }
            i = i + 1;
        }
        proof {
            assert(text@.take(n as int) =~= text@);
        }
        Some(rights)
    }
}

impl core::str::FromStr for Castling {
    type Err = ();

    fn from_str(text: &str) -> (rights: Result<Castling, ()>)
        ensures
            rights == match Castling::of_text(text@) {
                Some(granted) => Ok::<Castling, ()>(granted),
                None => Err::<Castling, ()>(()),
            },
    {
        match Castling::decode(text) {
            Some(rights) => Ok(rights),
            None => Err(()),
        }
    }
}

/// The en-passant target that a segment names. `-` names none. Any other
/// segment must be a file letter `a` to `h` followed by a rank digit `0` to
/// `7`; both are counted from zero, the digit standing for itself.
pub open spec fn en_passant_of(text: Seq<char>) -> Option<Option<(u8, u8)>> {
    if text == seq!['-'] {
        Some(None)
    } else if text.len() == 2 && 'a' <= text[0] <= 'h' && '0' <= text[1] <= '7' {
        Some(Some(((text[0] as u8 - 'a' as u8) as u8, (text[1] as u8 - '0' as u8) as u8)))
    } else {
        None
    }
}

/// Decodes the en-passant segment: `None` where it is malformed,
/// `Some(None)` where it names no square.
pub fn parse_en_passant(text: &str) -> (target: Option<Option<(u8, u8)>>)
    ensures
        target == en_passant_of(text@),
{
    let n: usize = text.unicode_len();
    if n == 1 && text.get_char(0) == '-' {
        assert(text@ =~= seq!['-']);
        return Some(None);
    }
    if n != 2 {
        return None;
    }
    let file: u8 = match text.get_char(0) {
        'a' => 0,
        'b' => 1,
        'c' => 2,
        'd' => 3,
        'e' => 4,
        'f' => 5,
        'g' => 6,
        'h' => 7,
        _ => {
            return None;
        },
    };
    let rank: u8 = match text.get_char(1) {
        '0' => 0,
        '1' => 1,
        '2' => 2,
        '3' => 3,
        '4' => 4,
        '5' => 5,
        '6' => 6,
        '7' => 7,
        _ => {
            return None;
        },
    };
    Some(Some((file, rank)))
}

/// Whether `ch` is one of the ten decimal digits.
pub open spec fn is_digit(ch: char) -> bool {
    '0' <= ch <= '9'
}

/// The value of a decimal digit.
pub open spec fn digit_value(ch: char) -> nat
    recommends
        is_digit(ch),
{
    if is_digit(ch) {
        (ch as int - '0' as int) as nat
    } else {
        0
    }
}

/// The number that a run of decimal digits denotes, most significant digit
/// first.
pub open spec fn decimal_value(text: Seq<char>) -> nat
    decreases text.len(),
{
    if text.len() == 0 {
        0
    } else {
        decimal_value(text.drop_last()) * 10 + digit_value(text.last())
    }
}

/// The counter that a segment denotes: the segment must be one or more
/// decimal digits and nothing else (no sign, no blank), and the number must
/// fit in 32 bits.
pub open spec fn counter_of(text: Seq<char>) -> Option<u32> {
    if text.len() > 0 && (forall|i: int| 0 <= i < text.len() ==> is_digit(#[trigger] text[i]))
        && decimal_value(text) <= u32::MAX {
        Some(decimal_value(text) as u32)
    } else {
        None
    }
}

/// Reading further digits never makes the number smaller.
pub proof fn lemma_decimal_value_grows(text: Seq<char>, n: int)
    requires
        0 <= n <= text.len(),
    ensures
        decimal_value(text.take(n)) <= decimal_value(text),
    decreases text.len() - n,
{
    if n == text.len() {
        assert(text.take(n) =~= text);
    } else {
        lemma_decimal_value_grows(text, n + 1);
        assert(text.take(n + 1).drop_last() =~= text.take(n));
    }
}

/// Decodes a move counter.
pub fn decode_counter(text: &str) -> (counter: Option<u32>)
    ensures
        counter == counter_of(text@),
{
    if text.is_empty() {
        return None;
    }
    let mut value: u32 = 0;
    proof {
        assert(text@.take(0) =~= Seq::<char>::empty());
    }
    for ch in digits: text.chars()
        invariant
            digits.seq() == text@,
            forall|k: int| 0 <= k < digits.index() ==> is_digit(#[trigger] text@[k]),
            value == decimal_value(text@.take(digits.index())),
    {
        let ghost at = digits.index();
        let digit: u32 = match ch {
            '0' => 0,
            '1' => 1,
            '2' => 2,
            '3' => 3,
            '4' => 4,
            '5' => 5,
            '6' => 6,
            '7' => 7,
            '8' => 8,
            '9' => 9,
            _ => {
                return None;
            },
        };
        proof {
            assert(text@.take(at + 1).drop_last() =~= text@.take(at));
            assert(text@.take(at + 1).last() == text@[at]);
            assert(digit == digit_value(text@[at]));
            lemma_decimal_value_grows(text@, at + 1);
        }
        if value > 429496729 || (value == 429496729 && digit > 5) {
            return None;
        }
        value = value * 10 + digit;
    }
    proof {
        assert(text@.take(text@.len() as int) =~= text@);
    }
    Some(value)
}

} // verus!
