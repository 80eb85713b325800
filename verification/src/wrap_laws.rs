//! What holds of the split points of every line.

use vstd::prelude::*;
use crate::wrap::{
    blank_from, char_cuts, pieces, row_end, row_start, splits_inside, word_cuts, word_end_before,
    word_pass, word_start_before, word_starts_at, wrap_points,
};

verus! {

/// No character from `from` up to `to` is blank.
pub open spec fn run(blank: Seq<bool>, from: int, to: int) -> bool {
    forall|j: int| from <= j < to ==> !#[trigger] blank[j]
}

/// No stretch of the text without a blank is too wide: every word fits.
pub open spec fn words_fit(
    text: Seq<char>,
    blank: Seq<bool>,
    too_wide: spec_fn(Seq<char>) -> bool,
) -> bool {
    forall|from: int, to: int|
        0 <= from <= to <= text.len() && run(blank, from, to) ==> !#[trigger] too_wide(
            text.subrange(from, to),
        )
}

/// A part of the text that holds a part that is too wide is too wide.
pub open spec fn monotone(text: Seq<char>, too_wide: spec_fn(Seq<char>) -> bool) -> bool {
    forall|a: int, b: int, c: int, d: int|
        #![trigger too_wide(text.subrange(b, c)), too_wide(text.subrange(a, d))]
        0 <= a <= b <= c <= d <= text.len() && too_wide(text.subrange(b, c)) ==> too_wide(
            text.subrange(a, d),
        )
}

/// The row `text[from..to]` without the blanks that trail it.
pub open spec fn trimmed(text: Seq<char>, blank: Seq<bool>, from: int, to: int) -> Seq<char> {
    let end = word_end_before(blank, to);
    text.subrange(
        from,
        if end < from {
            from
        } else {
            end
        },
    )
}

/// Laying the pieces end to end gives the text back.
pub proof fn lemma_pieces_rejoin(text: Seq<char>, points: Seq<int>)
    requires
        splits_inside(points, text.len() as int),
    ensures
        pieces(text, points).flatten() == text,
    decreases points.len(),
{
    let all = pieces(text, points);
    if points.len() == 0 {
        assert(all[0] =~= text);
        all.lemma_flatten_one_element();
    } else {
        let last = points.last();
        let head = text.subrange(0, last);
        let rest = points.drop_last();
        lemma_pieces_rejoin(head, rest);
        assert forall|k: int| 0 <= k < rest.len() + 1 implies all.drop_last()[k] == pieces(
            head,
            rest,
        )[k] by {
            assert(all[k] =~= pieces(head, rest)[k]);
        }
        assert(all.drop_last() =~= pieces(head, rest));
        assert(all =~= all.drop_last().push(all.last()));
        all.drop_last().lemma_flatten_push(all.last());
        assert(head + text.subrange(last, text.len() as int) =~= text);
    }
}

/// The pieces that the character pass cuts fit, but for pieces of a single
/// character: the piece begun at `from` that reaches `at` carries on to the
/// first cut (or to `end`), and each cut begins a piece that carries on to the
/// next (or to `end`).
proof fn lemma_char_cuts_fit(
    text: Seq<char>,
    too_wide: spec_fn(Seq<char>) -> bool,
    from: int,
    at: int,
    end: int,
)
    requires
        0 <= from < at <= end <= text.len(),
        at - from == 1 || !too_wide(text.subrange(from, at)),
    ensures
        ({
            let cuts = char_cuts(text, too_wide, from, at, end);
            let first = if cuts.len() == 0 {
                end
            } else {
                cuts[0]
            };
            &&& first - from == 1 || !too_wide(text.subrange(from, first))
            &&& forall|k: int|
                0 <= k < cuts.len() ==> {
                    let next = if k + 1 == cuts.len() {
                        end
                    } else {
                        cuts[k + 1]
                    };
                    next - #[trigger] cuts[k] == 1 || !too_wide(text.subrange(cuts[k], next))
                }
        }),
    decreases end - at,
{
    if at >= end {
    } else if too_wide(text.subrange(from, at + 1)) {
        lemma_char_cuts_fit(text, too_wide, at, at + 1, end);
        let rest = char_cuts(text, too_wide, at, at + 1, end);
        let cuts = char_cuts(text, too_wide, from, at, end);
        assert(cuts =~= seq![at] + rest);
        assert forall|k: int| 0 <= k < cuts.len() implies {
            let next = if k + 1 == cuts.len() {
                end
            } else {
                cuts[k + 1]
            };
            next - #[trigger] cuts[k] == 1 || !too_wide(text.subrange(cuts[k], next))
        } by {
            if k > 0 {
                assert(cuts[k] == rest[k - 1]);
                if k + 1 < cuts.len() {
                    assert(cuts[k + 1] == rest[k]);
                }
            } else if cuts.len() > 1 {
                assert(cuts[1] == rest[0]);
            }
        }
    } else {
        lemma_char_cuts_fit(text, too_wide, from, at + 1, end);
    }
}

/// On a line without blanks no word starts, so the word pass cuts nothing.
proof fn lemma_no_blank_pass(
    text: Seq<char>,
    blank: Seq<bool>,
    too_wide: spec_fn(Seq<char>) -> bool,
    i: int,
)
    requires
        run(blank, 0, blank.len() as int),
        0 <= i <= blank.len(),
    ensures
        word_pass(text, blank, too_wide, i) == (0int, Seq::<int>::empty()),
        word_start_before(blank, i) == 0,
        word_end_before(blank, i) == i,
        blank_from(blank, i, blank.len() as int) == blank.len(),
    decreases i,
{
    if i > 0 {
        lemma_no_blank_pass(text, blank, too_wide, i - 1);
    }
    lemma_no_blank_from(blank, i);
}

/// On a line without blanks the search for a blank runs to the end.
proof fn lemma_no_blank_from(blank: Seq<bool>, i: int)
    requires
        run(blank, 0, blank.len() as int),
        0 <= i <= blank.len(),
    ensures
        blank_from(blank, i, blank.len() as int) == blank.len(),
    decreases blank.len() - i,
{
    if i < blank.len() {
        lemma_no_blank_from(blank, i + 1);
    }
}

/// Every row of a wrapped line without blanks fits, unless it is a single
/// character. (The empty line has one row, the empty text.)
pub proof fn lemma_rows_fit(text: Seq<char>, blank: Seq<bool>, too_wide: spec_fn(Seq<char>) -> bool)
    requires
        blank.len() == text.len(),
        run(blank, 0, blank.len() as int),
        text.len() > 0 || !too_wide(text),
    ensures
        forall|k: int|
            0 <= k < pieces(text, wrap_points(text, blank, too_wide)).len() ==> {
                let row = #[trigger] pieces(text, wrap_points(text, blank, too_wide))[k];
                row.len() == 1 || !too_wide(row)
            },
{
    let n = text.len() as int;
    let points = wrap_points(text, blank, too_wide);
    let rows = pieces(text, points);
    lemma_no_blank_pass(text, blank, too_wide, n);
    lemma_no_blank_pass(text, blank, too_wide, 0);
    assert(text.subrange(0, n) =~= text);
    if !too_wide(text) {
        assert(rows[0] =~= text);
    } else {
        lemma_char_cuts_fit(text, too_wide, 0, 1, n);
        lemma_char_cuts_inside(text, too_wide, 0, 1, n);
        assert(points =~= char_cuts(text, too_wide, 0, 1, n));
        assert forall|k: int| 0 <= k < rows.len() implies {
            let row = #[trigger] rows[k];
            row.len() == 1 || !too_wide(row)
        } by {
            if k > 0 {
                assert(0 <= k - 1 < points.len());
                assert(points[k - 1] >= 1);
            }
        }
    }
}

/// The last word start before `i` and the end of the last word before `i`
/// bound a stretch without a blank.
proof fn lemma_word_bounds(blank: Seq<bool>, i: int)
    requires
        0 <= i <= blank.len(),
    ensures
        0 <= word_start_before(blank, i) <= word_end_before(blank, i) <= i,
        i > 0 ==> word_start_before(blank, i) < i,
        run(blank, word_start_before(blank, i), word_end_before(blank, i)),
    decreases i,
{
    if i > 0 {
        lemma_word_bounds(blank, i - 1);
    }
}

/// What lies before the first blank is a stretch without a blank.
proof fn lemma_blank_from(blank: Seq<bool>, from: int, end: int)
    requires
        0 <= from <= end <= blank.len(),
    ensures
        from <= blank_from(blank, from, end) <= end,
        run(blank, from, blank_from(blank, from, end)),
    decreases end - from,
{
    if from < end && !blank[from] {
        lemma_blank_from(blank, from + 1, end);
    }
}

/// The cuts of the character pass are strictly increasing and lie where it reads.
proof fn lemma_char_cuts_inside(
    text: Seq<char>,
    too_wide: spec_fn(Seq<char>) -> bool,
    from: int,
    at: int,
    end: int,
)
    ensures
        ({
            let cuts = char_cuts(text, too_wide, from, at, end);
            &&& forall|k: int| 0 <= k < cuts.len() ==> at <= #[trigger] cuts[k] < end
            &&& forall|j: int, k: int| 0 <= j < k < cuts.len() ==> cuts[j] < cuts[k]
        }),
    decreases end - at,
{
    let cuts = char_cuts(text, too_wide, from, at, end);
    if at >= end {
    } else if too_wide(text.subrange(from, at + 1)) {
        lemma_char_cuts_inside(text, too_wide, at, at + 1, end);
        let rest = char_cuts(text, too_wide, at, at + 1, end);
        assert(cuts =~= seq![at] + rest);
        assert forall|k: int| 0 <= k < cuts.len() implies at <= #[trigger] cuts[k] < end by {
            if k > 0 {
                assert(cuts[k] == rest[k - 1]);
            }
        }
        assert forall|j: int, k: int| 0 <= j < k < cuts.len() implies cuts[j] < cuts[k] by {
            assert(cuts[k] == rest[k - 1]);
            if j > 0 {
                assert(cuts[j] == rest[j - 1]);
            }
        }
    } else {
        lemma_char_cuts_inside(text, too_wide, from, at + 1, end);
        assert(cuts == char_cuts(text, too_wide, from, at + 1, end));
    }
}

/// Split points that all lie behind earlier ones can be added to them.
proof fn lemma_splits_append(first: Seq<int>, second: Seq<int>, bound: int, len: int)
    requires
        splits_inside(first, len),
        splits_inside(second, len),
        forall|k: int| 0 <= k < first.len() ==> #[trigger] first[k] <= bound,
        forall|k: int| 0 <= k < second.len() ==> bound < #[trigger] second[k],
    ensures
        splits_inside(first + second, len),
{
    let all = first + second;
    assert forall|k: int| 0 <= k < all.len() implies 0 < #[trigger] all[k] < len by {
        if k >= first.len() {
            assert(all[k] == second[k - first.len()]);
        }
    }
    assert forall|j: int, k: int| 0 <= j < k < all.len() implies all[j] < all[k] by {
        if j >= first.len() {
            assert(all[j] == second[j - first.len()]);
            assert(all[k] == second[k - first.len()]);
        } else if k >= first.len() {
            assert(all[k] == second[k - first.len()]);
        }
    }
}

/// The cuts within the word that begins at `from`, as split points of the line.
proof fn lemma_word_cuts_inside(
    text: Seq<char>,
    blank: Seq<bool>,
    too_wide: spec_fn(Seq<char>) -> bool,
    from: int,
    end: int,
)
    requires
        blank.len() == text.len(),
        0 <= from <= end <= text.len(),
    ensures
        ({
            let cuts = word_cuts(text, blank, too_wide, from, end);
            &&& splits_inside(cuts, text.len() as int)
            &&& forall|k: int| 0 <= k < cuts.len() ==> from < #[trigger] cuts[k] < end
        }),
{
    lemma_blank_from(blank, from, end);
    lemma_char_cuts_inside(text, too_wide, from, from + 1, blank_from(blank, from, end));
}

/// The split points that the word pass has found are strictly increasing and
/// lie inside the line, and the current row begins at the last of them.
pub proof fn lemma_word_pass_inside(
    text: Seq<char>,
    blank: Seq<bool>,
    too_wide: spec_fn(Seq<char>) -> bool,
    i: int,
)
    requires
        blank.len() == text.len(),
        0 <= i <= text.len(),
    ensures
        splits_inside(word_pass(text, blank, too_wide, i).1, text.len() as int),
        0 <= word_pass(text, blank, too_wide, i).0 <= word_start_before(blank, i),
        word_pass(text, blank, too_wide, i).0 == row_start(
            word_pass(text, blank, too_wide, i).1,
            word_pass(text, blank, too_wide, i).1.len() as int,
        ),
    decreases i,
{
    lemma_word_bounds(blank, i);
    if i > 0 {
        let at = i - 1;
        lemma_word_pass_inside(text, blank, too_wide, at);
        lemma_word_bounds(blank, at);
        let (start, points) = word_pass(text, blank, too_wide, at);
        let last = word_start_before(blank, at);
        if word_starts_at(blank, at) && too_wide(
            text.subrange(start, word_end_before(blank, at)),
        ) {
            if start == last {
                let cuts = word_cuts(text, blank, too_wide, start, at);
                lemma_word_cuts_inside(text, blank, too_wide, start, at);
                lemma_splits_append(points, cuts, start, text.len() as int);
                lemma_splits_append(points + cuts, seq![at], at - 1, text.len() as int);
            } else {
                lemma_splits_append(points, seq![last], start, text.len() as int);
                assert(points + seq![last] =~= points.push(last));
            }
        }
    }
}

/// The split points of a line are strictly increasing and lie strictly inside the line.
pub proof fn lemma_wrap_points_inside(
    text: Seq<char>,
    blank: Seq<bool>,
    too_wide: spec_fn(Seq<char>) -> bool,
)
    requires
        blank.len() == text.len(),
    ensures
        splits_inside(wrap_points(text, blank, too_wide), text.len() as int),
{
    let n = text.len() as int;
    let (start, points) = word_pass(text, blank, too_wide, n);
    let last = word_start_before(blank, n);
    lemma_word_pass_inside(text, blank, too_wide, n);
    lemma_word_bounds(blank, n);
    if !too_wide(text) {
    } else if !too_wide(text.subrange(start, word_end_before(blank, n))) {
    } else if start == last {
        lemma_word_cuts_inside(text, blank, too_wide, start, n);
        lemma_splits_append(points, word_cuts(text, blank, too_wide, start, n), start, n);
    } else {
        let head = if too_wide(text.subrange(start, last)) {
            word_cuts(text, blank, too_wide, start, last)
        } else {
            Seq::empty()
        };
        let tail = if too_wide(text.subrange(last, n)) {
            word_cuts(text, blank, too_wide, last, n)
        } else {
            Seq::empty()
        };
        lemma_word_cuts_inside(text, blank, too_wide, start, last);
        lemma_word_cuts_inside(text, blank, too_wide, last, n);
        lemma_splits_append(points, head, start, n);
        lemma_splits_append(points + head, seq![last], last - 1, n);
        lemma_splits_append(points + head + seq![last], tail, last, n);
    }
}

/// The rows of a wrapped line, laid end to end, are the line.
pub proof fn lemma_rows_rejoin(text: Seq<char>, blank: Seq<bool>, too_wide: spec_fn(Seq<char>) -> bool)
    requires
        blank.len() == text.len(),
    ensures
        pieces(text, wrap_points(text, blank, too_wide)).flatten() == text,
{
    lemma_wrap_points_inside(text, blank, too_wide);
    lemma_pieces_rejoin(text, wrap_points(text, blank, too_wide));
}

/// The character pass does not cut a stretch without a blank where every word fits.
proof fn lemma_run_uncut(
    text: Seq<char>,
    blank: Seq<bool>,
    too_wide: spec_fn(Seq<char>) -> bool,
    from: int,
    at: int,
    end: int,
)
    requires
        0 <= from < at,
        end <= text.len(),
        run(blank, from, end),
        words_fit(text, blank, too_wide),
    ensures
        char_cuts(text, too_wide, from, at, end) == Seq::<int>::empty(),
    decreases end - at,
{
    if at < end {
        assert(run(blank, from, at + 1));
        assert(!too_wide(text.subrange(from, at + 1)));
        lemma_run_uncut(text, blank, too_wide, from, at + 1, end);
    }
}

/// Where every word fits, no word is cut.
proof fn lemma_word_uncut(
    text: Seq<char>,
    blank: Seq<bool>,
    too_wide: spec_fn(Seq<char>) -> bool,
    from: int,
    end: int,
)
    requires
        blank.len() == text.len(),
        0 <= from <= end <= text.len(),
        words_fit(text, blank, too_wide),
    ensures
        word_cuts(text, blank, too_wide, from, end) == Seq::<int>::empty(),
{
    lemma_blank_from(blank, from, end);
    lemma_run_uncut(text, blank, too_wide, from, from + 1, blank_from(blank, from, end));
}

/// Where every word fits, the rows that the word pass has cut fit without
/// the blanks that trail them, and so does the current row as far as it
/// reached when the last word started.
proof fn lemma_word_pass_fits(
    text: Seq<char>,
    blank: Seq<bool>,
    too_wide: spec_fn(Seq<char>) -> bool,
    i: int,
)
    requires
        blank.len() == text.len(),
        0 <= i <= text.len(),
        words_fit(text, blank, too_wide),
    ensures
        ({
            let (start, points) = word_pass(text, blank, too_wide, i);
            &&& !too_wide(trimmed(text, blank, start, word_start_before(blank, i)))
            &&& forall|k: int|
                0 <= k < points.len() ==> !too_wide(
                    trimmed(text, blank, row_start(points, k), #[trigger] points[k]),
                )
        }),
    decreases i,
{
    lemma_word_bounds(blank, i);
    lemma_word_pass_inside(text, blank, too_wide, i);
    assert(run(blank, 0, 0));
    assert(!too_wide(text.subrange(0, 0)));
    if i > 0 {
        let at = i - 1;
        lemma_word_pass_fits(text, blank, too_wide, at);
        lemma_word_pass_inside(text, blank, too_wide, at);
        lemma_word_bounds(blank, at);
        let (start, points) = word_pass(text, blank, too_wide, at);
        let last = word_start_before(blank, at);
        let end = word_end_before(blank, at);
        if word_starts_at(blank, at) {
            assert(word_start_before(blank, i) == at);
            if too_wide(text.subrange(start, end)) {
                if start == last {
                    assert(!too_wide(text.subrange(last, end)));
                } else {
                    let cut = points.push(last);
                    assert(word_pass(text, blank, too_wide, i) == (last, cut));
                    assert(!too_wide(text.subrange(last, end)));
                    assert forall|k: int| 0 <= k < cut.len() implies !too_wide(
                        trimmed(text, blank, row_start(cut, k), #[trigger] cut[k]),
                    ) by {
                        if k < points.len() {
                            assert(cut[k] == points[k]);
                            assert(row_start(cut, k) == row_start(points, k));
                        } else {
                            assert(row_start(cut, k) == start);
                        }
                    }
                }
            } else {
                if end < start {
                    assert(run(blank, start, start));
                    assert(!too_wide(text.subrange(start, start)));
                }
            }
        }
    }
}

/// Where every word of a line fits, and a text with a part that is too wide
/// is too wide, every row of the wrapped line fits without the blanks that
/// trail it.
pub proof fn lemma_rows_fit_trimmed(
    text: Seq<char>,
    blank: Seq<bool>,
    too_wide: spec_fn(Seq<char>) -> bool,
)
    requires
        blank.len() == text.len(),
        words_fit(text, blank, too_wide),
        monotone(text, too_wide),
    ensures
        forall|k: int|
            #![trigger row_start(wrap_points(text, blank, too_wide), k)]
            0 <= k <= wrap_points(text, blank, too_wide).len() ==> !too_wide(
                trimmed(
                    text,
                    blank,
                    row_start(wrap_points(text, blank, too_wide), k),
                    row_end(wrap_points(text, blank, too_wide), text.len() as int, k),
                ),
            ),
{
    let n = text.len() as int;
    let (start, points) = word_pass(text, blank, too_wide, n);
    let last = word_start_before(blank, n);
    let end = word_end_before(blank, n);
    let cut = wrap_points(text, blank, too_wide);
    lemma_word_pass_inside(text, blank, too_wide, n);
    lemma_word_pass_fits(text, blank, too_wide, n);
    lemma_word_bounds(blank, n);
    assert(run(blank, start, start));
    assert(!too_wide(text.subrange(start, start)));
    if !too_wide(text) {
        assert(text.subrange(0, n) =~= text);
        assert(!too_wide(text.subrange(0, n)));
        if too_wide(text.subrange(0, end)) {
            assert(too_wide(text.subrange(0, n)));
        }
    } else if !too_wide(text.subrange(start, end)) {
    } else if start == last {
        assert(!too_wide(text.subrange(last, end)));
    } else {
        lemma_word_uncut(text, blank, too_wide, start, last);
        lemma_word_uncut(text, blank, too_wide, last, n);
        assert(cut =~= points.push(last));
        assert(!too_wide(text.subrange(last, end)));
        assert forall|k: int|
            #![trigger row_start(cut, k)]
            0 <= k <= cut.len() implies !too_wide(
            trimmed(text, blank, row_start(cut, k), row_end(cut, n, k)),
        ) by {
            if k < points.len() {
                assert(cut[k] == points[k]);
                assert(row_start(cut, k) == row_start(points, k));
            } else if k == points.len() {
                assert(row_start(cut, k) == start);
                assert(row_end(cut, n, k) == last);
            } else {
                assert(row_start(cut, k) == last);
            }
        }
    }
}

} // verus!
