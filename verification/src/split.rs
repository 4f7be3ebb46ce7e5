//! Cutting text into the parts that lie between occurrences of a separator.

use vstd::prelude::*;
use vstd::string::StrSliceExecFns;

verus! {

/// The parts of `text` between occurrences of `sep`, in order. Nothing is
/// collapsed: two adjacent separators enclose an empty part, and text
/// without a separator, the empty text too, is one part.
pub open spec fn parts(text: Seq<char>, sep: char) -> Seq<Seq<char>>
    decreases text.len(),
{
    if text.len() == 0 {
        seq![Seq::<char>::empty()]
    } else {
        let before = parts(text.drop_last(), sep);
        if text.last() == sep {
            before.push(Seq::<char>::empty())
        } else {
            before.drop_last().push(before.last().push(text.last()))
        }
    }
}

/// The number of occurrences of `sep` in `text`.
pub open spec fn occurrences(text: Seq<char>, sep: char) -> nat
    decreases text.len(),
{
    if text.len() == 0 {
        0
    } else {
        occurrences(text.drop_last(), sep) + if text.last() == sep {
            1nat
        } else {
            0nat
        }
    }
}

/// The parts laid end to end, with one `sep` between each two neighbours.
pub open spec fn joined(pieces: Seq<Seq<char>>, sep: char) -> Seq<char>
    decreases pieces.len(),
{
    if pieces.len() == 0 {
        Seq::<char>::empty()
    } else if pieces.len() == 1 {
        pieces[0]
    } else {
        joined(pieces.drop_last(), sep).push(sep) + pieces.last()
    }
}

/// Splitting loses nothing and cuts at every separator: there is one part
/// more than there are separators, no part holds a separator, and the parts
/// joined by the separator are the text again.
pub proof fn lemma_parts_partition(text: Seq<char>, sep: char)
    ensures
        parts(text, sep).len() == occurrences(text, sep) + 1,
        forall|i: int|
            0 <= i < parts(text, sep).len() ==> !(#[trigger] parts(text, sep)[i]).contains(sep),
        joined(parts(text, sep), sep) == text,
    decreases text.len(),
{
    let all = parts(text, sep);
    if text.len() == 0 {
        assert(all.len() == 1);
        assert(all[0] == Seq::<char>::empty());
        assert(joined(all, sep) =~= text);
    } else {
        let before = parts(text.drop_last(), sep);
        lemma_parts_partition(text.drop_last(), sep);
        if text.last() == sep {
            assert(all.drop_last() =~= before);
            assert(joined(all, sep) =~= text);
        } else {
            let grown = before.last().push(text.last());
            assert(all.last() == grown);
            assert forall|i: int| 0 <= i < all.len() implies !(#[trigger] all[i]).contains(
                sep,
            ) by {
                if i == all.len() - 1 {
                    if grown.contains(sep) {
                        let k = choose|k: int| 0 <= k < grown.len() && grown[k] == sep;
                        assert(k < before.last().len());
                        assert(before.last()[k] == sep);
                        assert(before[before.len() - 1].contains(sep));
                    }
                } else {
                    assert(all[i] == before[i]);
                }
            }
            if before.len() == 1 {
                assert(joined(before, sep) == before[0]);
                assert(joined(all, sep) =~= text);
            } else {
                assert(all.drop_last() =~= before.drop_last());
                assert(joined(before, sep) == joined(before.drop_last(), sep).push(sep)
                    + before.last());
                assert(joined(all, sep) =~= joined(before, sep).push(text.last()));
                assert(joined(all, sep) =~= text);
            }
        }
    }
}

/// Cuts `text` at every `sep` and hands out the parts, each a borrowed slice
/// of `text`.
pub fn split<'a>(text: &'a str, sep: char) -> (pieces: Vec<&'a str>)
    ensures
        pieces.len() == parts(text@, sep).len(),
        forall|i: int| 0 <= i < pieces.len() ==> (#[trigger] pieces[i])@ == parts(text@, sep)[i],
{
    let n: usize = text.unicode_len();
    let mut pieces: Vec<&'a str> = Vec::new();
    let mut start: usize = 0;
    let mut i: usize = 0;
    proof {
        assert(text@.take(0) =~= Seq::<char>::empty());
        assert(text@.subrange(0, 0) =~= Seq::<char>::empty());
        assert(parts(text@.take(0), sep) =~= seq![text@.subrange(0, 0)]);
    }
    for ch in rest: text.chars()
        invariant
            rest.seq() == text@,
            n == text@.len(),
            i == rest.index(),
            start <= i,
            parts(text@.take(i as int), sep).len() == pieces.len() + 1,
            forall|k: int|
                0 <= k < pieces.len() ==> (#[trigger] pieces[k])@ == parts(
                    text@.take(i as int),
                    sep,
                )[k],
            parts(text@.take(i as int), sep)[pieces.len() as int] == text@.subrange(
                start as int,
                i as int,
            ),
    {
        proof {
            let next = text@.take(i + 1);
            assert(next.drop_last() =~= text@.take(i as int));
            assert(next.last() == ch);
        }
        if ch == sep {
            let piece = text.substring_char(start, i);
            pieces.push(piece);
            start = i + 1;
            proof {
                assert(text@.subrange(start as int, i + 1) =~= Seq::<char>::empty());
            }
        } else {
            proof {
                assert(text@.subrange(start as int, i + 1) =~= text@.subrange(
                    start as int,
                    i as int,
                ).push(ch));
            }
        }
        i = i + 1;
    }
    let piece = text.substring_char(start, n);
    pieces.push(piece);
    proof {
        assert(text@.take(n as int) =~= text@);
    }
    pieces
}

} // verus!
