//! Text layout for display: word wrap, caret positions and selection rectangles.

use vstd::prelude::*;
use vstd::string::StrSliceExecFns;
use crate::caret::{caret_rest, caret_row, caret_x, clip, lemma_caret_row_grows, locate};
use crate::cursor::Cursor;
use crate::measure::{answers_all, models};
use crate::rect::{frame, Rect};
use crate::selection::{
    first_line_rects, full_rows, head_rects, last_line_rects, line_rects, row_rect,
    single_line_rects, span_rects, tail_rects,
};
use crate::wrap::{
    blank_from, char_cuts, offsets, pieces, splits_inside, word_cuts, word_end_before, word_pass,
    word_start_before, word_starts_at, wrap_points,
};
use crate::wrap_laws::lemma_pieces_rejoin;

verus! {

/// Whether `c` is white space, as `char::is_whitespace` of the standard library answers.
pub uninterp spec fn white_space(c: char) -> bool;

/// `char::is_whitespace` of the standard library: its answer depends on the
/// character alone, and `white_space` is the name of that answer.
pub assume_specification[ char::is_whitespace ](c: char) -> (b: bool)
    ensures
        b == white_space(c),
;

/// The blank marks of a text: for each character, whether it is white space.
pub open spec fn blanks(text: Seq<char>) -> Seq<bool> {
    text.map_values(|c: char| white_space(c))
}

/// Marks each character of `line` that is white space.
pub fn blank_marks(line: &str) -> (marks: Vec<bool>)
    ensures
        marks@ == blanks(line@),
{
    let mut marks: Vec<bool> = Vec::new();
    for c in it: line.chars()
        invariant
            it.seq() == line@,
            marks@.len() == it.index(),
            forall|k: int| 0 <= k < marks@.len() ==> marks@[k] == white_space(line@[k]),
    {
        marks.push(c.is_whitespace());
    }
    assert(marks@ =~= blanks(line@));
    marks
}

/// Finds the first blank in `[from, end)`.
fn first_blank(blank: &Vec<bool>, from: usize, end: usize) -> (stop: usize)
    requires
        from <= end <= blank@.len(),
    ensures
        stop == blank_from(blank@, from as int, end as int),
        from <= stop <= end,
{
    let mut at: usize = from;
    while at < end && !blank[at]
        invariant
            from <= at <= end <= blank@.len(),
            blank_from(blank@, from as int, end as int) == blank_from(blank@, at as int, end as int),
        decreases end - at,
    {
        at += 1;
    }
    at
}

/// The character pass over `line[from..end]`: appends its split points to `points`.
fn char_pass<F: Fn(&str) -> bool>(
    line: &str,
    should_wrap: &F,
    from: usize,
    end: usize,
    points: &mut Vec<usize>,
)
    requires
        answers_all(should_wrap),
        from <= end <= line@.len(),
        splits_inside(offsets(old(points)@), line@.len() as int),
        forall|k: int| 0 <= k < old(points)@.len() ==> old(points)@[k] <= from,
    ensures
        splits_inside(offsets(final(points)@), line@.len() as int),
        forall|k: int|
            0 <= k < final(points)@.len() ==> final(points)@[k] <= from || final(points)@[k] < end,
        forall|m: spec_fn(Seq<char>) -> bool| #[trigger]
            models(should_wrap, m) ==> offsets(final(points)@) == offsets(old(points)@) + char_cuts(
                line@,
                m,
                from as int,
                from + 1,
                end as int,
            ),
{
    let ghost before = points@;
    if from >= end {
        assert(offsets(points@) =~= offsets(before) + Seq::<int>::empty());
        return ;
    }
    let mut start: usize = from;
    let mut at: usize = from + 1;
    proof {
        assert(offsets(points@) + Seq::<int>::empty() =~= offsets(points@));
    }
    while at < end
        invariant
            answers_all(should_wrap),
            from <= start < at <= end <= line@.len(),
            splits_inside(offsets(points@), line@.len() as int),
            forall|k: int| 0 <= k < points@.len() ==> points@[k] <= start,
            forall|m: spec_fn(Seq<char>) -> bool| #[trigger]
                models(should_wrap, m) ==> offsets(points@) + char_cuts(
                    line@,
                    m,
                    start as int,
                    at as int,
                    end as int,
                ) == offsets(before) + char_cuts(line@, m, from as int, from + 1, end as int),
        decreases end - at,
    {
        let piece = line.substring_char(start, at + 1);
        let wide = should_wrap(piece);
        let ghost earlier = points@;
        let ghost start0 = start;
        if wide {
            points.push(at);
            start = at;
        }
        proof {
            assert(offsets(earlier.push(at)) =~= offsets(earlier).push(at as int));
            assert forall|m: spec_fn(Seq<char>) -> bool| #[trigger]
                models(should_wrap, m) implies offsets(points@) + char_cuts(
                line@,
                m,
                start as int,
                at + 1,
                end as int,
            ) == offsets(before) + char_cuts(line@, m, from as int, from + 1, end as int) by {
                assert(m(piece@) == wide);
                if wide {
                    assert(offsets(earlier) + (seq![at as int] + char_cuts(
                        line@,
                        m,
                        at as int,
                        at + 1,
                        end as int,
                    )) =~= offsets(earlier).push(at as int) + char_cuts(
                        line@,
                        m,
                        at as int,
                        at + 1,
                        end as int,
                    ));
                }
            }
        }
        at += 1;
    }
    proof {
        assert forall|m: spec_fn(Seq<char>) -> bool| #[trigger]
            models(should_wrap, m) implies offsets(points@) == offsets(before) + char_cuts(
            line@,
            m,
            from as int,
            from + 1,
            end as int,
        ) by {
            assert(offsets(points@) + Seq::<int>::empty() =~= offsets(points@));
        }
    }
}

/// Finds where to cut a word that is too wide, given the blank marks of its characters.
///
/// The word is what stands before the first blank of `line`; whatever follows
/// stays with the last piece.
pub fn wrap_word_marked<F: Fn(&str) -> bool>(line: &str, blank: &Vec<bool>, should_wrap: &F) -> (points:
    Vec<usize>)
    requires
        answers_all(should_wrap),
        blank@.len() == line@.len(),
    ensures
        splits_inside(offsets(points@), line@.len() as int),
        forall|m: spec_fn(Seq<char>) -> bool| #[trigger]
            models(should_wrap, m) ==> offsets(points@) == word_cuts(
                line@,
                blank@,
                m,
                0,
                line@.len() as int,
            ),
{
    let n = line.unicode_len();
    let stop = first_blank(blank, 0, n);
    let mut points: Vec<usize> = Vec::new();
    char_pass(line, should_wrap, 0, stop, &mut points);
    proof {
        assert forall|m: spec_fn(Seq<char>) -> bool| #[trigger]
            models(should_wrap, m) implies offsets(points@) == word_cuts(
            line@,
            blank@,
            m,
            0,
            line@.len() as int,
        ) by {
            assert(Seq::<int>::empty() + char_cuts(line@, m, 0, 1, stop as int) =~= char_cuts(
                line@,
                m,
                0,
                1,
                stop as int,
            ));
            assert(offsets(Seq::<usize>::empty()) =~= Seq::<int>::empty());
        }
    }
    points
}

/// Finds where to cut a word that is too wide for one row.
///
/// `should_wrap` says of a text whether it is too wide. The result holds the
/// offsets, in characters, before which a new row begins.
pub fn wrap_word<F: Fn(&str) -> bool>(line: &str, should_wrap: &F) -> (points: Vec<usize>)
    requires
        answers_all(should_wrap),
    ensures
        splits_inside(offsets(points@), line@.len() as int),
        forall|m: spec_fn(Seq<char>) -> bool| #[trigger]
            models(should_wrap, m) ==> offsets(points@) == word_cuts(
                line@,
                blanks(line@),
                m,
                0,
                line@.len() as int,
            ),
{
    let marks = blank_marks(line);
    wrap_word_marked(line, &marks, should_wrap)
}

/// Finds where to wrap a line, given the blank marks of its characters.
///
/// `should_wrap` says of a text whether it is too wide for one row. The result
/// holds the offsets, in characters, before which a new row begins; it is
/// empty where the line fits.
pub fn wrap_line_marked<F: Fn(&str) -> bool>(line: &str, blank: &Vec<bool>, should_wrap: &F) -> (points:
    Vec<usize>)
    requires
        answers_all(should_wrap),
        blank@.len() == line@.len(),
    ensures
        splits_inside(offsets(points@), line@.len() as int),
        pieces(line@, offsets(points@)).flatten() == line@,
        forall|m: spec_fn(Seq<char>) -> bool| #[trigger]
            models(should_wrap, m) ==> offsets(points@) == wrap_points(line@, blank@, m),
        forall|m: spec_fn(Seq<char>) -> bool| #[trigger]
            models(should_wrap, m) && !m(line@) ==> points@.len() == 0,
{
    let mut points: Vec<usize> = Vec::new();
    let n = line.unicode_len();
    let whole = should_wrap(line);
    proof {
        assert(offsets(points@) =~= Seq::<int>::empty());
        lemma_pieces_rejoin(line@, offsets(points@));
    }
    if !whole {
        return points;
    }
    let mut start: usize = 0;
    let mut word_begin: usize = 0;
    let mut word_end: usize = 0;
    let mut in_blank = false;
    let mut i: usize = 0;
    while i < n
        invariant
            answers_all(should_wrap),
            i <= n == line@.len() == blank@.len(),
            start <= word_begin <= word_end <= i,
            word_begin < i || i == 0,
            word_begin == word_start_before(blank@, i as int),
            word_end == word_end_before(blank@, i as int),
            in_blank == (i > 0 && blank@[i - 1]),
            splits_inside(offsets(points@), n as int),
            forall|k: int| 0 <= k < points@.len() ==> points@[k] <= start,
            forall|m: spec_fn(Seq<char>) -> bool| #[trigger]
                models(should_wrap, m) ==> (start as int, offsets(points@)) == word_pass(
                    line@,
                    blank@,
                    m,
                    i as int,
                ),
        decreases n - i,
    {
        let ghost start0 = start;
        let ghost points0 = points@;
        let ghost last = word_begin;
        let ghost event = false;
        let ghost wide = false;
        if blank[i] {
            in_blank = true;
        } else {
            if in_blank {
                let row = line.substring_char(start, word_end);
                let row_wide = should_wrap(row);
                proof {
                    event = true;
                    wide = row_wide;
                }
                if row_wide {
                    if start == word_begin {
                        let stop = first_blank(blank, start, i);
                        char_pass(line, should_wrap, start, stop, &mut points);
                        let ghost cut = points@;
                        points.push(i);
                        proof {
                            assert(offsets(cut.push(i)) =~= offsets(cut).push(i as int));
                            assert(offsets(cut).push(i as int) =~= offsets(cut) + seq![i as int]);
                        }
                        start = i;
                    } else {
                        points.push(word_begin);
                        proof {
                            assert(offsets(points0.push(word_begin)) =~= offsets(points0).push(
                                word_begin as int,
                            ));
                        }
                        start = word_begin;
                    }
                }
                word_begin = i;
            }
            word_end = i + 1;
            in_blank = false;
        }
        proof {
            assert(event == word_starts_at(blank@, i as int));
            assert forall|m: spec_fn(Seq<char>) -> bool| #[trigger]
                models(should_wrap, m) implies (start as int, offsets(points@)) == word_pass(
                line@,
                blank@,
                m,
                i + 1,
            ) by {
                assert((start0 as int, offsets(points0)) == word_pass(line@, blank@, m, i as int));
                if event {
                    assert(m(line@.subrange(start0 as int, word_end_before(blank@, i as int)))
                        == wide);
                }
            }
        }
        i += 1;
    }
    let ghost points0 = points@;
    let ghost start0 = start;
    let ghost wide_head = false;
    let ghost wide_tail = false;
    let row = line.substring_char(start, word_end);
    let row_wide = should_wrap(row);
    if row_wide {
        if start == word_begin {
            let stop = first_blank(blank, start, n);
            char_pass(line, should_wrap, start, stop, &mut points);
        } else {
            let head = line.substring_char(start, word_begin);
            let head_wide = should_wrap(head);
            if head_wide {
                let stop = first_blank(blank, start, word_begin);
                char_pass(line, should_wrap, start, stop, &mut points);
            }
            let ghost points1 = points@;
            points.push(word_begin);
            let ghost points2 = points@;
            proof {
                assert(offsets(points1.push(word_begin)) =~= offsets(points1).push(
                    word_begin as int,
                ));
            }
            let tail = line.substring_char(word_begin, n);
            let tail_wide = should_wrap(tail);
            if tail_wide {
                let stop = first_blank(blank, word_begin, n);
                char_pass(line, should_wrap, word_begin, stop, &mut points);
            }
            proof {
                wide_head = head_wide;
                wide_tail = tail_wide;
                assert(offsets(points1.push(word_begin)) =~= offsets(points1) + seq![
                    word_begin as int,
                ]);
                assert forall|m: spec_fn(Seq<char>) -> bool| #[trigger]
                    models(should_wrap, m) implies offsets(points@) == wrap_points(
                    line@,
                    blank@,
                    m,
                ) by {
                    assert(m(line@) == whole);
                    assert(m(row@) == row_wide);
                    assert(m(head@) == head_wide);
                    assert(m(tail@) == tail_wide);
                    assert((start0 as int, offsets(points0)) == word_pass(line@, blank@, m, n as int));
                    assert(offsets(points1) + Seq::<int>::empty() =~= offsets(points1));
                    assert(offsets(points2) + Seq::<int>::empty() =~= offsets(points2));
                    assert(offsets(points0) + Seq::<int>::empty() =~= offsets(points0));
                }
            }
        }
    }
    proof {
        assert forall|m: spec_fn(Seq<char>) -> bool| #[trigger]
            models(should_wrap, m) implies offsets(points@) == wrap_points(line@, blank@, m) by {
            assert(m(line@) == whole);
            assert(m(row@) == row_wide);
            assert((start0 as int, offsets(points0)) == word_pass(line@, blank@, m, n as int));
        }
        assert forall|m: spec_fn(Seq<char>) -> bool| #[trigger]
            models(should_wrap, m) && !m(line@) implies points@.len() == 0 by {
            assert(m(line@) == whole);
        }
        lemma_pieces_rejoin(line@, offsets(points@));
    }
    points
}

/// Finds where to wrap a line of text so that each row fits.
///
/// `should_wrap` says of a text whether it is too wide for one row. The result
/// holds the offsets, in characters, before which a new row begins; it is
/// empty where the line fits.
pub fn wrap_line<F: Fn(&str) -> bool>(line: &str, should_wrap: &F) -> (points: Vec<usize>)
    requires
        answers_all(should_wrap),
    ensures
        splits_inside(offsets(points@), line@.len() as int),
        pieces(line@, offsets(points@)).flatten() == line@,
        forall|m: spec_fn(Seq<char>) -> bool| #[trigger]
            models(should_wrap, m) ==> offsets(points@) == wrap_points(line@, blanks(line@), m),
        forall|m: spec_fn(Seq<char>) -> bool| #[trigger]
            models(should_wrap, m) && !m(line@) ==> points@.len() == 0,
{
    let marks = blank_marks(line);
    wrap_line_marked(line, &marks, should_wrap)
}

/// Finds where to wrap a line of text so that each row is at most `limit` wide.
///
/// `width_check` measures a text. The result holds the offsets, in
/// characters, before which a new row begins; it is empty where the line is
/// at most `limit` wide.
pub fn wrap_line_within<F: Fn(&str) -> u32>(line: &str, width_check: &F, limit: u32) -> (points: Vec<
    usize,
>)
    requires
        answers_all(width_check),
    ensures
        splits_inside(offsets(points@), line@.len() as int),
        pieces(line@, offsets(points@)).flatten() == line@,
        forall|w: spec_fn(Seq<char>) -> u32| #[trigger]
            models(width_check, w) ==> offsets(points@) == wrap_points(
                line@,
                blanks(line@),
                |t: Seq<char>| w(t) > limit,
            ),
        forall|w: spec_fn(Seq<char>) -> u32| #[trigger]
            models(width_check, w) && w(line@) <= limit ==> points@.len() == 0,
{
    let should_wrap = |t: &str| -> (wide: bool)
        requires
            answers_all(width_check),
        ensures
            forall|w: spec_fn(Seq<char>) -> u32| #[trigger]
                models(width_check, w) ==> wide == (w(t@) > limit),
        { width_check(t) > limit };
    let points = wrap_line(line, &should_wrap);
    proof {
        assert forall|w: spec_fn(Seq<char>) -> u32| #[trigger]
            models(width_check, w) implies offsets(points@) == wrap_points(
            line@,
            blanks(line@),
            |t: Seq<char>| w(t) > limit,
        ) && (w(line@) <= limit ==> points@.len() == 0) by {
            let m = |t: Seq<char>| w(t) > limit;
            assert(models(&should_wrap, m));
        }
    }
    points
}

/// Returns whether the split points are strictly increasing and lie strictly
/// inside a line of `len` characters.
pub fn are_splits_inside(points: &Vec<usize>, len: usize) -> (ok: bool)
    ensures
        ok == splits_inside(offsets(points@), len as int),
{
    let mut last: usize = 0;
    let mut k: usize = 0;
    while k < points.len()
        invariant
            k <= points@.len(),
            last == if k == 0 {
                0
            } else {
                offsets(points@)[k - 1]
            },
            splits_inside(offsets(points@).take(k as int), len as int),
        decreases points@.len() - k,
    {
        let point = points[k];
        assert(offsets(points@)[k as int] == point);
        if point <= last || point >= len {
            proof {
                if splits_inside(offsets(points@), len as int) {
                    if k > 0 {
                        assert(offsets(points@)[k - 1] < offsets(points@)[k as int]);
                    }
                    assert(false);
                }
            }
            return false;
        }
        proof {
            let next = offsets(points@).take(k + 1);
            let so_far = offsets(points@).take(k as int);
            assert forall|i: int, j: int| 0 <= i < j < next.len() implies next[i] < next[j] by {
                if j == k {
                    if i < k - 1 {
                        assert(so_far[i] < so_far[k - 1]);
                    }
                } else {
                    assert(so_far[i] < so_far[j]);
                }
            }
            assert forall|i: int| 0 <= i < next.len() implies 0 < #[trigger] next[i] < len by {
                if i < k {
                    assert(so_far[i] == next[i]);
                }
            }
        }
        last = point;
        k += 1;
    }
    assert(offsets(points@).take(k as int) =~= offsets(points@));
    true
}

/// Cuts a line into its rows at the split points.
pub fn split_rows<'a>(line: &'a str, points: &Vec<usize>) -> (rows: Vec<&'a str>)
    requires
        splits_inside(offsets(points@), line@.len() as int),
    ensures
        texts(rows@) == pieces(line@, offsets(points@)),
{
    let n = line.unicode_len();
    let mut rows: Vec<&'a str> = Vec::new();
    let mut start: usize = 0;
    let mut k: usize = 0;
    while k < points.len()
        invariant
            k <= points@.len(),
            n == line@.len(),
            splits_inside(offsets(points@), n as int),
            start == if k == 0 {
                0
            } else {
                offsets(points@)[k - 1]
            },
            rows@.len() == k,
            forall|j: int| 0 <= j < k ==> (#[trigger] rows@[j])@ == pieces(line@, offsets(points@))[j],
        decreases points@.len() - k,
    {
        let end = points[k];
        assert(offsets(points@)[k as int] == end);
        if k > 0 {
            assert(offsets(points@)[k - 1] < offsets(points@)[k as int]);
        }
        rows.push(line.substring_char(start, end));
        start = end;
        k += 1;
    }
    rows.push(line.substring_char(start, n));
    assert(texts(rows@) =~= pieces(line@, offsets(points@)));
    rows
}

/// The texts held by a vector of rows.
pub open spec fn texts(rows: Seq<&str>) -> Seq<Seq<char>> {
    rows.map_values(|row: &str| row@)
}

/// A width as a coordinate, clipped where it is too large for one.
fn clip_width(x: u64) -> (c: i32)
    ensures
        c == clip(x as int),
{
    if x > 0x7fff_ffff {
        0x7fff_ffff
    } else {
        x as i32
    }
}

/// Finds the horizontal offset at which to draw the caret before column `col` of `line`.
///
/// `width_check` measures a text. Offsets beyond the largest coordinate are clipped to it.
pub fn cursor_x_pos<F: Fn(&str) -> u32>(col: usize, line: &str, width_check: &F) -> (x: i32)
    requires
        answers_all(width_check),
    ensures
        0 <= x,
        col == 0 ==> x == 0,
        forall|w: spec_fn(Seq<char>) -> u32| #[trigger]
            models(width_check, w) ==> x == clip(caret_x(col as int, line@, w)),
        forall|w: spec_fn(Seq<char>) -> u32| #[trigger]
            models(width_check, w) && 0 < col && col >= line@.len() ==> x == clip(w(line@) as int),
{
    if col == 0 {
        return 0;
    }
    let n = line.unicode_len();
    if col >= n {
        let whole = width_check(line);
        return clip_width(whole as u64);
    }
    let left = line.substring_char(col - 1, col);
    let right = line.substring_char(col, col + 1);
    let pair = line.substring_char(col - 1, col + 1);
    let before = line.substring_char(0, col);
    let left_width = width_check(left);
    let right_width = width_check(right);
    let pair_width = width_check(pair);
    let before_width = width_check(before);
    let singles: u64 = left_width as u64 + right_width as u64;
    let nudge: u64 = if (pair_width as u64) < singles {
        0
    } else {
        (pair_width as u64 - singles) / 2
    };
    let x = clip_width(before_width as u64 + nudge);
    proof {
        assert forall|w: spec_fn(Seq<char>) -> u32| #[trigger]
            models(width_check, w) implies x == clip(caret_x(col as int, line@, w)) by {
            assert(w(left@) == left_width);
            assert(w(right@) == right_width);
            assert(w(pair@) == pair_width);
            assert(w(before@) == before_width);
        }
    }
    x
}

/// Finds where to draw the caret before column `col` of a line wrapped into
/// the rows `lines`: the row, and the horizontal offset within it.
///
/// The rows are walked in order, each taking its characters off the column,
/// until the column lies within a row or the last row is reached. Column 0
/// is always drawn at the start of the first row.
pub fn cursor_pos<F: Fn(&str) -> u32>(col: usize, lines: &Vec<&str>, width_check: &F) -> (pos: (
    usize,
    i32,
))
    requires
        answers_all(width_check),
        col == 0 || lines@.len() >= 1,
    ensures
        pos.0 == caret_row(texts(lines@), col as int),
        0 <= pos.1,
        col == 0 ==> pos.1 == 0,
        lines@.len() >= 1 ==> pos.0 < lines@.len(),
        forall|w: spec_fn(Seq<char>) -> u32| #[trigger]
            models(width_check, w) ==> pos.1 == clip(
                caret_x(caret_rest(texts(lines@), col as int), texts(lines@)[pos.0 as int], w),
            ),
{
    if col == 0 {
        return (0, 0);
    }
    let last = lines.len() - 1;
    let mut row: usize = 0;
    let mut rest: usize = col;
    loop
        invariant_except_break
            lines@.len() >= 1,
            last == lines@.len() - 1,
            row <= last,
            locate(texts(lines@), col as int, 0) == locate(texts(lines@), rest as int, row as int),
        ensures
            row <= last == lines@.len() - 1,
            locate(texts(lines@), col as int, 0) == (row as int, rest as int),
        decreases last - row,
    {
        let text: &str = lines[row];
        let len = text.unicode_len();
        assert(texts(lines@)[row as int] == text@);
        if row == last || rest < len {
            break ;
        }
        rest -= len;
        row += 1;
    }
    let text: &str = lines[row];
    assert(texts(lines@)[row as int] == text@);
    let x = cursor_x_pos(rest, text, width_check);
    (row, x)
}

/// The rectangle that covers row `row` from `left` to `right`.
fn make_row(left: i64, right: i64, row: usize, line_height: u32) -> (r: Rect)
    requires
        0 <= left <= u32::MAX,
        0 <= right <= u32::MAX,
    ensures
        r == row_rect(left as int, right as int, row as int, line_height as int),
{
    assert(row * line_height <= 0xffff_ffff_ffff_ffff * 0xffff_ffff) by (nonlinear_arith)
        requires
            0 <= row <= 0xffff_ffff_ffff_ffff,
            0 <= line_height <= 0xffff_ffff,
    ;
    let top: u128 = (row as u128) * (line_height as u128);
    let x: i32 = if left > 0x7fff_ffff {
        0x7fff_ffff
    } else {
        left as i32
    };
    let y: i32 = if top > 0x7fff_ffff {
        0x7fff_ffff
    } else {
        top as i32
    };
    let width: u32 = if right <= left {
        0
    } else {
        (right - left) as u32
    };
    Rect::new(x, y, width, line_height)
}

/// Appends the full rows from `first` up to, not including, `end`.
fn push_full_rows(rects: &mut Vec<Rect>, first: usize, end: usize, line_width: u32, line_height: u32)
    requires
        first <= end,
    ensures
        final(rects)@ == old(rects)@ + full_rows(
            first as int,
            end - first,
            line_width as int,
            line_height as int,
        ),
{
    let ghost before = rects@;
    let mut row: usize = first;
    assert(rects@ =~= before + full_rows(first as int, 0, line_width as int, line_height as int));
    while row < end
        invariant
            first <= row <= end,
            rects@ == before + full_rows(
                first as int,
                row - first,
                line_width as int,
                line_height as int,
            ),
        decreases end - row,
    {
        rects.push(make_row(0, line_width as i64, row, line_height));
        row += 1;
        assert(rects@ =~= before + full_rows(
            first as int,
            row - first,
            line_width as int,
            line_height as int,
        ));
    }
}

/// Returns the rectangles of a selection that starts and ends in the same
/// line: from column `start` to column `end` of the line wrapped into `lines`.
///
/// Each row is `line_height` high and `line_width` wide. Within one row the
/// selection is one rectangle between the two carets. Over several rows it is
/// the first row from the first caret on, each row between the two in full,
/// and the last row up to the last caret.
pub fn selection_single_line<F: Fn(&str) -> u32>(
    lines: &Vec<&str>,
    start: usize,
    end: usize,
    width_check: &F,
    line_width: u32,
    line_height: u32,
) -> (rects: Vec<Rect>)
    requires
        answers_all(width_check),
        lines@.len() >= 1,
        start <= end,
    ensures
        forall|w: spec_fn(Seq<char>) -> u32| #[trigger]
            models(width_check, w) ==> rects@ == single_line_rects(
                texts(lines@),
                start as int,
                end as int,
                w,
                line_width as int,
                line_height as int,
            ),
{
    let (start_row, start_x) = cursor_pos(start, lines, width_check);
    let (end_row, end_x) = cursor_pos(end, lines, width_check);
    proof {
        lemma_caret_row_grows(texts(lines@), start as int, end as int);
    }
    let mut rects: Vec<Rect> = Vec::new();
    if start_row == end_row {
        rects.push(make_row(start_x as i64, end_x as i64, start_row, line_height));
    } else {
        rects.push(make_row(start_x as i64, line_width as i64, start_row, line_height));
        push_full_rows(&mut rects, start_row + 1, end_row, line_width, line_height);
        rects.push(make_row(0, end_x as i64, end_row, line_height));
    }
    assert(rects@ =~= span_rects(
        start_row as int,
        start_x as int,
        end_row as int,
        end_x as int,
        line_width as int,
        line_height as int,
    ));
    rects
}

/// Returns the rectangles, within its first line, of a selection that spans
/// several lines: from column `start` of the line wrapped into `lines` on.
///
/// It is the caret's row from the caret on, and each row below it in full. A
/// line of a single row whose caret stands at or behind `line_width` has no
/// rectangle.
pub fn selection_first_line<F: Fn(&str) -> u32>(
    lines: &Vec<&str>,
    start: usize,
    width_check: &F,
    line_width: u32,
    line_height: u32,
) -> (rects: Vec<Rect>)
    requires
        answers_all(width_check),
        lines@.len() >= 1,
    ensures
        forall|w: spec_fn(Seq<char>) -> u32| #[trigger]
            models(width_check, w) ==> rects@ == first_line_rects(
                texts(lines@),
                start as int,
                w,
                line_width as int,
                line_height as int,
            ),
{
    let (row, x) = cursor_pos(start, lines, width_check);
    let mut rects: Vec<Rect> = Vec::new();
    if lines.len() > 1 {
        rects.push(make_row(x as i64, line_width as i64, row, line_height));
        push_full_rows(&mut rects, row + 1, lines.len(), line_width, line_height);
    } else if (x as i64) < (line_width as i64) {
        rects.push(make_row(x as i64, line_width as i64, 0, line_height));
    }
    assert(rects@ =~= head_rects(
        lines@.len() as int,
        row as int,
        x as int,
        line_width as int,
        line_height as int,
    ));
    rects
}

/// Returns the rectangle of a line in the middle of a selection that spans
/// several lines: all of its `line_count` rows, in full.
pub fn selection_middle_line(line_count: usize, line_width: u32, line_height: u32) -> (r: Rect)
    ensures
        r == frame(0, 0, line_width as int, line_count * line_height),
{
    assert(line_count * line_height <= 0xffff_ffff_ffff_ffff * 0xffff_ffff) by (nonlinear_arith)
        requires
            0 <= line_count <= 0xffff_ffff_ffff_ffff,
            0 <= line_height <= 0xffff_ffff,
    ;
    let height: u128 = (line_count as u128) * (line_height as u128);
    let clipped: u32 = if height > 0xffff_ffff {
        0xffff_ffff
    } else {
        height as u32
    };
    Rect::new(0, 0, line_width, clipped)
}

/// Returns the rectangles, within its last line, of a selection that spans
/// several lines: up to column `end` of the line wrapped into `lines`.
///
/// It is the caret's row up to the caret, followed by each row above it in full.
pub fn selection_last_line<F: Fn(&str) -> u32>(
    lines: &Vec<&str>,
    end: usize,
    width_check: &F,
    line_width: u32,
    line_height: u32,
) -> (rects: Vec<Rect>)
    requires
        answers_all(width_check),
        lines@.len() >= 1,
    ensures
        forall|w: spec_fn(Seq<char>) -> u32| #[trigger]
            models(width_check, w) ==> rects@ == last_line_rects(
                texts(lines@),
                end as int,
                w,
                line_width as int,
                line_height as int,
            ),
{
    let (row, x) = cursor_pos(end, lines, width_check);
    let mut rects: Vec<Rect> = Vec::new();
    rects.push(make_row(0, x as i64, row, line_height));
    push_full_rows(&mut rects, 0, row, line_width, line_height);
    assert(rects@ =~= tail_rects(row as int, x as int, line_width as int, line_height as int));
    rects
}

/// Returns the rectangles, within line `lineno` of a document, of a selection
/// from `first` to `last`, where the line is wrapped into `lines`.
pub fn selection_of_line<F: Fn(&str) -> u32>(
    lines: &Vec<&str>,
    lineno: usize,
    first: &Cursor,
    last: &Cursor,
    width_check: &F,
    line_width: u32,
    line_height: u32,
) -> (rects: Vec<Rect>)
    requires
        answers_all(width_check),
        lines@.len() >= 1,
        !last@.before(first@),
    ensures
        forall|w: spec_fn(Seq<char>) -> u32| #[trigger]
            models(width_check, w) ==> rects@ == line_rects(
                texts(lines@),
                lineno as int,
                first@,
                last@,
                w,
                line_width as int,
                line_height as int,
            ),
{
    if lineno == first.line && lineno == last.line {
        selection_single_line(lines, first.col, last.col, width_check, line_width, line_height)
    } else if lineno == first.line {
        selection_first_line(lines, first.col, width_check, line_width, line_height)
    } else if lineno == last.line {
        selection_last_line(lines, last.col, width_check, line_width, line_height)
    } else if first.line < lineno && lineno < last.line {
        let mut rects: Vec<Rect> = Vec::new();
        rects.push(selection_middle_line(lines.len(), line_width, line_height));
        assert(rects@ =~= seq![
            frame(0, 0, line_width as int, lines@.len() * line_height as int),
        ]);
        assert(texts(lines@).len() == lines@.len());
        rects
    } else {
        Vec::new()
    }
}

/// Returns whether a text of `len` bytes fits into `wrap_width` whatever its
/// characters are, given that no character is wider than `max_char_width`.
pub fn surely_fits(len: usize, max_char_width: u32, wrap_width: u32) -> (fits: bool)
    ensures
        fits == (len * max_char_width <= wrap_width),
{
    if max_char_width == 0 {
        assert(len * max_char_width == 0) by (nonlinear_arith)
            requires
                max_char_width == 0,
        ;
        true
    } else {
        let most = wrap_width / max_char_width;
        proof {
            let l = len as int;
            let c = max_char_width as int;
            let w = wrap_width as int;
            assert((l * c <= w) == (l <= w / c)) by (nonlinear_arith)
                requires
                    c > 0,
                    l >= 0,
                    w >= 0,
            ;
        }
        len <= most as usize
    }
}

/// Returns the largest of the widths, or 0 where there is none.
pub fn max_width(widths: &Vec<u32>) -> (max: u32)
    ensures
        forall|i: int| 0 <= i < widths@.len() ==> widths@[i] <= max,
        widths@.len() == 0 ==> max == 0,
        widths@.len() > 0 ==> exists|i: int| 0 <= i < widths@.len() && widths@[i] == max,
{
    let mut max: u32 = 0;
    let mut i: usize = 0;
    while i < widths.len()
        invariant
            i <= widths@.len(),
            forall|j: int| 0 <= j < i ==> widths@[j] <= max,
            i == 0 ==> max == 0,
            i > 0 ==> exists|j: int| 0 <= j < i && widths@[j] == max,
        decreases widths@.len() - i,
    {
        if widths[i] > max || i == 0 {
            max = widths[i];
        }
        i += 1;
    }
    max
}

} // verus!
