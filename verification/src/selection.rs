//! The mathematical model of selection rectangles.
//!
//! A line is drawn as one row or, wrapped, as several rows below each other.
//! Every row is `line_height` high, and the rows are `line_width` wide. The
//! part of a line that is selected is covered by one rectangle for each row
//! that it touches.

use vstd::prelude::*;
use crate::caret::{caret_rest, caret_row, caret_x, clip};
use crate::cursor::Position;
use crate::rect::{frame, Rect};

verus! {

/// The rectangle that covers row `row` from the offset `left` to the offset `right`.
pub open spec fn row_rect(left: int, right: int, row: int, line_height: int) -> Rect {
    frame(left, row * line_height, right - left, line_height)
}

/// `count` full rows below each other, the first of them row `first`.
pub open spec fn full_rows(first: int, count: int, line_width: int, line_height: int) -> Seq<Rect> {
    Seq::new(
        if count < 0 {
            0
        } else {
            count as nat
        },
        |k: int| row_rect(0, line_width, first + k, line_height),
    )
}

/// The rectangles of a selection within one line, from the caret in row
/// `start_row` at offset `start_x` to the caret in row `end_row` at offset
/// `end_x`.
///
/// Within one row it is one rectangle between the two carets. Over several
/// rows it is the first row from the first caret on, each row between the
/// two in full, and the last row up to the last caret, from top to bottom.
pub open spec fn span_rects(
    start_row: int,
    start_x: int,
    end_row: int,
    end_x: int,
    line_width: int,
    line_height: int,
) -> Seq<Rect> {
    if start_row == end_row {
        seq![row_rect(start_x, end_x, start_row, line_height)]
    } else {
        seq![row_rect(start_x, line_width, start_row, line_height)] + full_rows(
            start_row + 1,
            end_row - start_row - 1,
            line_width,
            line_height,
        ) + seq![row_rect(0, end_x, end_row, line_height)]
    }
}

/// The rectangles of a selection that begins at the caret in row `row` at
/// offset `x` of a line of `rows` rows, and goes on behind the line.
///
/// It is the caret's row from the caret on, and each row below it in full,
/// from top to bottom. A line of a single row whose caret stands at or behind
/// `line_width` has no rectangle.
pub open spec fn head_rects(rows: int, row: int, x: int, line_width: int, line_height: int) -> Seq<
    Rect,
> {
    if rows > 1 {
        seq![row_rect(x, line_width, row, line_height)] + full_rows(
            row + 1,
            rows - 1 - row,
            line_width,
            line_height,
        )
    } else if x >= line_width {
        Seq::empty()
    } else {
        seq![row_rect(x, line_width, 0, line_height)]
    }
}

/// The rectangles of a selection that begins before a line and ends at the
/// caret in row `row` at offset `x` of it.
///
/// It is the caret's row up to the caret, followed by each row above it in
/// full, from top to bottom.
pub open spec fn tail_rects(row: int, x: int, line_width: int, line_height: int) -> Seq<Rect> {
    seq![row_rect(0, x, row, line_height)] + full_rows(0, row, line_width, line_height)
}

/// The offset at which the caret before column `col` of a line wrapped into `rows` is drawn.
pub open spec fn caret_offset(rows: Seq<Seq<char>>, col: int, width: spec_fn(Seq<char>) -> u32) -> int {
    clip(caret_x(caret_rest(rows, col), rows[caret_row(rows, col)], width))
}

/// The rectangles of a selection from column `start` to column `end` of a line wrapped into `rows`.
pub open spec fn single_line_rects(
    rows: Seq<Seq<char>>,
    start: int,
    end: int,
    width: spec_fn(Seq<char>) -> u32,
    line_width: int,
    line_height: int,
) -> Seq<Rect> {
    span_rects(
        caret_row(rows, start),
        caret_offset(rows, start, width),
        caret_row(rows, end),
        caret_offset(rows, end, width),
        line_width,
        line_height,
    )
}

/// The rectangles of a selection from column `start` of a line wrapped into
/// `rows` to its end and beyond.
pub open spec fn first_line_rects(
    rows: Seq<Seq<char>>,
    start: int,
    width: spec_fn(Seq<char>) -> u32,
    line_width: int,
    line_height: int,
) -> Seq<Rect> {
    head_rects(
        rows.len() as int,
        caret_row(rows, start),
        caret_offset(rows, start, width),
        line_width,
        line_height,
    )
}

/// The rectangles of a selection from before a line wrapped into `rows` to its column `end`.
pub open spec fn last_line_rects(
    rows: Seq<Seq<char>>,
    end: int,
    width: spec_fn(Seq<char>) -> u32,
    line_width: int,
    line_height: int,
) -> Seq<Rect> {
    tail_rects(caret_row(rows, end), caret_offset(rows, end, width), line_width, line_height)
}

/// The rectangles, within line `line` of a document, of a selection from
/// `first` to `last`, where the line is wrapped into `rows`.
///
/// A line that holds both ends is covered between them, the line of the
/// first end from there on, the line of the last end up to there, and a line
/// between the two in full, by one rectangle for all of its rows. A line
/// outside the selection has no rectangle.
pub open spec fn line_rects(
    rows: Seq<Seq<char>>,
    line: int,
    first: Position,
    last: Position,
    width: spec_fn(Seq<char>) -> u32,
    line_width: int,
    line_height: int,
) -> Seq<Rect> {
    if line == first.line && line == last.line {
        single_line_rects(rows, first.col, last.col, width, line_width, line_height)
    } else if line == first.line {
        first_line_rects(rows, first.col, width, line_width, line_height)
    } else if line == last.line {
        last_line_rects(rows, last.col, width, line_width, line_height)
    } else if first.line < line < last.line {
        seq![frame(0, 0, line_width, rows.len() * line_height)]
    } else {
        Seq::empty()
    }
}

} // verus!
