//! The mathematical model of caret positions: where, in a line that may be
//! wrapped into rows, the caret before a given column is drawn.

use vstd::prelude::*;

verus! {

/// The horizontal offset of the caret before column `col` of `text`, where
/// `width` measures a text.
///
/// Before the first character it is 0, and at or behind the end it is the
/// width of the text. Between two characters it is the width of the text
/// before the caret, moved right by half of what the two characters measure
/// more as a pair than one by one.
pub open spec fn caret_x(col: int, text: Seq<char>, width: spec_fn(Seq<char>) -> u32) -> int {
    if col <= 0 {
        0
    } else if col >= text.len() {
        width(text) as int
    } else {
        let pair = width(text.subrange(col - 1, col + 1)) as int;
        let singles = width(text.subrange(col - 1, col)) + width(text.subrange(col, col + 1));
        let nudge = if pair < singles {
            0
        } else {
            (pair - singles) / 2
        };
        width(text.subrange(0, col)) + nudge
    }
}

/// The caret before the first character stands at 0, and the caret at or
/// behind the end of a text stands at its width. (Of the empty text the caret
/// before the first character is also the caret at the end, and stands at 0.)
pub proof fn lemma_caret_x_ends(col: int, text: Seq<char>, width: spec_fn(Seq<char>) -> u32)
    ensures
        caret_x(0, text, width) == 0,
        col >= text.len() && (col > 0 || width(text) == 0) ==> caret_x(col, text, width) == width(
            text,
        ),
{
}

/// An offset as a coordinate: offsets beyond the largest coordinate are drawn there.
pub open spec fn clip(x: int) -> int {
    if x > i32::MAX {
        i32::MAX as int
    } else {
        x
    }
}

/// Walks the rows from `row` on with `col` columns to go: the row in which the
/// caret stands, and its column in that row. The caret stands in the first
/// row that has more characters than there are columns to go, or else in the
/// last row.
pub open spec fn locate(rows: Seq<Seq<char>>, col: int, row: int) -> (int, int)
    decreases rows.len() - row,
{
    if row + 1 >= rows.len() || col < rows[row].len() {
        (row, col)
    } else {
        locate(rows, col - rows[row].len(), row + 1)
    }
}

/// The row of the caret before column `col` of a line wrapped into `rows`.
pub open spec fn caret_row(rows: Seq<Seq<char>>, col: int) -> int {
    if col == 0 {
        0
    } else {
        locate(rows, col, 0).0
    }
}

/// The column, within its row, of the caret before column `col` of a line wrapped into `rows`.
pub open spec fn caret_rest(rows: Seq<Seq<char>>, col: int) -> int {
    if col == 0 {
        0
    } else {
        locate(rows, col, 0).1
    }
}

/// The number of characters in the rows before `row`.
pub open spec fn chars_before(rows: Seq<Seq<char>>, row: int) -> int
    decreases row,
{
    if row <= 0 {
        0
    } else {
        chars_before(rows, row - 1) + rows[row - 1].len()
    }
}

/// The walk keeps the count of columns: what lies before the row it ends in,
/// and the column within that row, add up to what lay before the row it began
/// in and the columns it had to go.
pub proof fn lemma_locate_adds_up(rows: Seq<Seq<char>>, col: int, row: int)
    requires
        0 <= row,
        0 <= col,
    ensures
        ({
            let (found, rest) = locate(rows, col, row);
            &&& row <= found
            &&& row < rows.len() ==> found < rows.len()
            &&& 0 <= rest
            &&& found + 1 >= rows.len() || rest < rows[found].len()
            &&& chars_before(rows, found) + rest == chars_before(rows, row) + col
        }),
    decreases rows.len() - row,
{
    if row + 1 >= rows.len() || col < rows[row].len() {
    } else {
        lemma_locate_adds_up(rows, col - rows[row].len(), row + 1);
    }
}

/// A caret further along the line stands in the same row or in a later one.
pub proof fn lemma_caret_row_grows(rows: Seq<Seq<char>>, first: int, second: int)
    requires
        0 <= first <= second,
    ensures
        caret_row(rows, first) <= caret_row(rows, second),
{
    lemma_locate_adds_up(rows, second, 0);
    if first > 0 {
        lemma_locate_grows(rows, first, second, 0);
    }
}

proof fn lemma_locate_grows(rows: Seq<Seq<char>>, first: int, second: int, row: int)
    requires
        0 <= first <= second,
        0 <= row,
    ensures
        locate(rows, first, row).0 <= locate(rows, second, row).0,
    decreases rows.len() - row,
{
    if row + 1 >= rows.len() || second < rows[row].len() {
    } else if first < rows[row].len() {
        lemma_locate_adds_up(rows, second - rows[row].len(), row + 1);
    } else {
        lemma_locate_grows(rows, first - rows[row].len(), second - rows[row].len(), row + 1);
    }
}

/// The caret of a wrapped line stands for its column: the characters of the
/// rows above the caret's row, and the caret's column within its row, add up
/// to the column.
pub proof fn lemma_caret_adds_up(rows: Seq<Seq<char>>, col: int)
    requires
        0 <= col,
    ensures
        chars_before(rows, caret_row(rows, col)) + caret_rest(rows, col) == col,
        0 <= caret_row(rows, col),
        0 <= caret_rest(rows, col),
        rows.len() > 0 ==> caret_row(rows, col) < rows.len(),
{
    lemma_locate_adds_up(rows, col, 0);
}

} // verus!
