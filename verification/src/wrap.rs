//! The mathematical model of greedy word wrap.
//!
//! A line is a sequence of characters together with a mark for each character
//! that says whether it is blank. A predicate `too_wide` says of a piece of
//! text whether it exceeds the width limit. The result of wrapping is a
//! sequence of split points: offsets, counted in characters, before which a
//! new visual row begins.

use vstd::prelude::*;

verus! {

/// The offsets held by a vector of split points.
pub open spec fn offsets(points: Seq<usize>) -> Seq<int> {
    points.map_values(|p: usize| p as int)
}

/// The split points are strictly increasing and lie strictly inside a text of `len` characters.
pub open spec fn splits_inside(points: Seq<int>, len: int) -> bool {
    &&& forall|k: int| 0 <= k < points.len() ==> 0 < #[trigger] points[k] < len
    &&& forall|j: int, k: int| 0 <= j < k < points.len() ==> points[j] < points[k]
}

/// Where row `k` of a line cut at `points` begins.
pub open spec fn row_start(points: Seq<int>, k: int) -> int {
    if k == 0 {
        0
    } else {
        points[k - 1]
    }
}

/// Where row `k` of a line of `len` characters cut at `points` ends.
pub open spec fn row_end(points: Seq<int>, len: int, k: int) -> int {
    if k == points.len() {
        len
    } else {
        points[k]
    }
}

/// The rows into which the split points cut the text: from the start to the
/// first point, from each point to the next, and from the last point to the end.
pub open spec fn pieces(text: Seq<char>, points: Seq<int>) -> Seq<Seq<char>> {
    Seq::new(
        points.len() + 1,
        |k: int| text.subrange(row_start(points, k), row_end(points, text.len() as int, k)),
    )
}

/// The split points of the character pass over `text[from..end]`, read on from
/// `at` with the current piece begun at `from`: the piece is cut before the
/// first character with which it would be too wide, and the next piece begins
/// with that character. A piece is never cut before its first character.
pub open spec fn char_cuts(
    text: Seq<char>,
    too_wide: spec_fn(Seq<char>) -> bool,
    from: int,
    at: int,
    end: int,
) -> Seq<int>
    decreases end - at,
{
    if at >= end {
        Seq::empty()
    } else if too_wide(text.subrange(from, at + 1)) {
        seq![at] + char_cuts(text, too_wide, at, at + 1, end)
    } else {
        char_cuts(text, too_wide, from, at + 1, end)
    }
}

/// The offset of the first blank in `[from, end)`, or `end` where there is none.
pub open spec fn blank_from(blank: Seq<bool>, from: int, end: int) -> int
    decreases end - from,
{
    if from >= end {
        end
    } else if blank[from] {
        from
    } else {
        blank_from(blank, from + 1, end)
    }
}

/// The split points inside the word that begins at `from`: the character pass
/// over `text[from..end]` up to its first blank. Blanks that trail the word,
/// and whatever follows them, stay with its last piece.
pub open spec fn word_cuts(
    text: Seq<char>,
    blank: Seq<bool>,
    too_wide: spec_fn(Seq<char>) -> bool,
    from: int,
    end: int,
) -> Seq<int> {
    char_cuts(text, too_wide, from, from + 1, blank_from(blank, from, end))
}

/// A word begins at `i`: a character that is not blank, right after a blank.
pub open spec fn word_starts_at(blank: Seq<bool>, i: int) -> bool {
    0 < i < blank.len() && blank[i - 1] && !blank[i]
}

/// The offset of the last word start before `i`, or 0 where no word starts before `i`.
pub open spec fn word_start_before(blank: Seq<bool>, i: int) -> int
    decreases i,
{
    if i <= 0 {
        0
    } else if word_starts_at(blank, i - 1) {
        i - 1
    } else {
        word_start_before(blank, i - 1)
    }
}

/// The offset just behind the last character before `i` that is not blank, or
/// 0 where all characters before `i` are blank.
pub open spec fn word_end_before(blank: Seq<bool>, i: int) -> int
    decreases i,
{
    if i <= 0 {
        0
    } else if !blank[i - 1] {
        i
    } else {
        word_end_before(blank, i - 1)
    }
}

/// The word pass over the first `i` characters: where the current row begins,
/// and the split points found so far.
///
/// Rows are only ever cut when a word starts. At a word start the row read so
/// far, without the blanks that trail it, is tested. Where it is too wide and
/// holds a single word, that word is cut by the character pass and the new
/// word begins a row. Where it is too wide and holds more words, the row is
/// cut before the last of them, which begins the next row together with the
/// word that starts.
pub open spec fn word_pass(
    text: Seq<char>,
    blank: Seq<bool>,
    too_wide: spec_fn(Seq<char>) -> bool,
    i: int,
) -> (int, Seq<int>)
    decreases i,
{
    if i <= 0 {
        (0, Seq::empty())
    } else {
        let (start, points) = word_pass(text, blank, too_wide, i - 1);
        let at = i - 1;
        if word_starts_at(blank, at) && too_wide(text.subrange(start, word_end_before(blank, at))) {
            let last = word_start_before(blank, at);
            if start == last {
                (at, points + word_cuts(text, blank, too_wide, start, at) + seq![at])
            } else {
                (last, points.push(last))
            }
        } else {
            (start, points)
        }
    }
}

/// The split points of a line.
///
/// A line that is not too wide has none. Otherwise the word pass reads the
/// whole line, and the row that is left at the end is tested without the
/// blanks that trail it. Where it is too wide and holds a single word, the
/// character pass cuts that word. Where it is too wide and holds more words,
/// it is cut before the last word; the part before that cut and the part
/// behind it are each cut by the character pass where they are too wide.
pub open spec fn wrap_points(
    text: Seq<char>,
    blank: Seq<bool>,
    too_wide: spec_fn(Seq<char>) -> bool,
) -> Seq<int> {
    let n = text.len() as int;
    let (start, points) = word_pass(text, blank, too_wide, n);
    let last = word_start_before(blank, n);
    if !too_wide(text) {
        Seq::empty()
    } else if !too_wide(text.subrange(start, word_end_before(blank, n))) {
        points
    } else if start == last {
        points + word_cuts(text, blank, too_wide, start, n)
    } else {
        points + (if too_wide(text.subrange(start, last)) {
            word_cuts(text, blank, too_wide, start, last)
        } else {
            Seq::empty()
        }) + seq![last] + (if too_wide(text.subrange(last, n)) {
            word_cuts(text, blank, too_wide, last, n)
        } else {
            Seq::empty()
        })
    }
}

} // verus!
