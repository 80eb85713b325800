use textfield::layout::{
    are_splits_inside, blank_marks, split_rows, wrap_line, wrap_line_marked, wrap_line_within, wrap_word,
    wrap_word_marked,
};

fn wider_than(limit: usize) -> impl Fn(&str) -> bool {
    move |t: &str| t.chars().count() > limit
}

fn rows_of(line: &str, limit: usize) -> Vec<&str> {
    let points = wrap_line(line, &wider_than(limit));
    split_rows(line, &points)
}

#[test]
fn a_line_that_fits_is_not_wrapped() {
    assert_eq!(wrap_line("hello world", &wider_than(11)), Vec::<usize>::new());
    assert_eq!(wrap_line("", &wider_than(3)), Vec::<usize>::new());
    assert_eq!(rows_of("hello world", 11), vec!["hello world"]);
}

#[test]
fn a_word_at_the_limit_is_not_wrapped() {
    assert_eq!(wrap_line("abc", &wider_than(3)), Vec::<usize>::new());
    assert_eq!(wrap_line("abc def", &wider_than(3)), vec![4]);
}

#[test]
fn split_points_of_a_long_word() {
    assert_eq!(wrap_line("123456789", &wider_than(3)), vec![3, 6]);
    assert_eq!(wrap_line("1234567890", &wider_than(3)), vec![3, 6, 9]);
    assert_eq!(rows_of("123456789", 3), vec!["123", "456", "789"]);
}

#[test]
fn rows_join_to_the_line() {
    let lines = [
        "",
        "a",
        "   ",
        "hello world",
        " leading and trailing  ",
        "Thisisaverylongsinglewordtoshowthatthisisalsowrappedcorrectly",
        "This is a lot of words that should demonstrate word wrapping adequately",
        "a bbbbbbbbb c d",
        "tab\tseparated\twords",
    ];
    for line in lines.iter() {
        for limit in 0..12 {
            let rows = rows_of(line, limit);
            assert_eq!(rows.concat(), *line);
            let points = wrap_line(line, &wider_than(limit));
            assert_eq!(rows.len(), points.len() + 1);
            let mut last = 0;
            for point in points {
                assert!(last < point && point < line.chars().count());
                last = point;
            }
        }
    }
}

#[test]
fn rows_of_a_line_without_blanks_fit_or_are_single_characters() {
    let line = "Thisisaverylongsinglewordtoshowthatthisisalsowrappedcorrectly";
    for limit in 0..70 {
        for row in rows_of(line, limit) {
            let len = row.chars().count();
            assert!(len <= limit || len == 1);
        }
    }
    assert_eq!(rows_of("abc", 0), vec!["a", "b", "c"]);
    assert_eq!(rows_of("abcde", 2), vec!["ab", "cd", "e"]);
}

#[test]
fn trailing_blanks_stay_with_their_row() {
    assert_eq!(rows_of("333 22", 3), vec!["333 ", "22"]);
    assert_eq!(rows_of("abc      ", 3), vec!["abc      "]);
    assert_eq!(rows_of("   ", 1), vec!["   "]);
}

#[test]
fn leading_blanks_are_a_row_of_their_own_where_the_rest_is_too_wide() {
    assert_eq!(wrap_line(" abc", &wider_than(2)), vec![1, 3]);
    assert_eq!(rows_of(" abc", 2), vec![" ", "ab", "c"]);
}

#[test]
fn a_wide_word_between_words_stays_whole() {
    assert_eq!(wrap_line("a bbbbbbbbb c d", &wider_than(3)), vec![2, 12]);
    assert_eq!(rows_of("a bbbbbbbbb c d", 3), vec!["a ", "bbbbbbbbb ", "c d"]);
}

#[test]
fn a_wide_first_word_is_cut_when_the_next_word_starts() {
    assert_eq!(wrap_line("abcdefg hi jk", &wider_than(3)), vec![3, 6, 8, 11]);
    assert_eq!(rows_of("abcdefg hi jk", 3), vec!["abc", "def", "g ", "hi ", "jk"]);
    assert_eq!(rows_of("abcdefg hi jk", 5), vec!["abcde", "fg ", "hi jk"]);
}

#[test]
fn offsets_count_characters() {
    let line = "\u{e4}\u{e4}\u{e4}\u{e4}\u{e4}\u{e4}";
    assert_eq!(wrap_line(line, &wider_than(4)), vec![4]);
    assert_eq!(rows_of(line, 4), vec!["\u{e4}\u{e4}\u{e4}\u{e4}", "\u{e4}\u{e4}"]);
    let words = "\u{fc}ber \u{e4}hnlich gro\u{df}";
    assert_eq!(rows_of(words, 7), vec!["\u{fc}ber ", "\u{e4}hnlich ", "gro\u{df}"]);
}

#[test]
fn wrap_word_stops_at_the_first_blank() {
    assert_eq!(wrap_word("123 567", &wider_than(2)), vec![2]);
    assert_eq!(wrap_word("1234567", &wider_than(2)), vec![2, 4, 6]);
    assert_eq!(wrap_word("", &wider_than(2)), Vec::<usize>::new());
    assert_eq!(wrap_word(" 1234567", &wider_than(2)), Vec::<usize>::new());
}

#[test]
fn blanks_are_the_white_space_characters() {
    assert_eq!(blank_marks("a b"), vec![false, true, false]);
    assert_eq!(blank_marks("\ta\n\u{a0}\u{3000}x"), vec![true, false, true, true, true, false]);
    assert_eq!(blank_marks(""), Vec::<bool>::new());
    assert_eq!(wrap_line("ab\u{a0}cd", &wider_than(2)), vec![3]);
    assert_eq!(wrap_line("ab_cd", &wider_than(2)), vec![2, 4]);
}

#[test]
fn marks_decide_where_words_are() {
    let no_marks = vec![false; 7];
    let mut one_mark = vec![false; 7];
    one_mark[3] = true;
    assert_eq!(wrap_line_marked("abc def", &no_marks, &wider_than(3)), vec![3, 6]);
    assert_eq!(wrap_line_marked("abc def", &one_mark, &wider_than(3)), vec![4]);
    assert_eq!(wrap_word_marked("abc def", &no_marks, &wider_than(3)), vec![3, 6]);
    assert_eq!(wrap_word_marked("abc def", &one_mark, &wider_than(3)), Vec::<usize>::new());
}

#[test]
fn split_rows_cuts_at_the_points() {
    assert_eq!(split_rows("hello", &vec![]), vec!["hello"]);
    assert_eq!(split_rows("hello", &vec![1, 4]), vec!["h", "ell", "o"]);
    assert_eq!(split_rows("\u{e4}b\u{e4}b", &vec![1, 3]), vec!["\u{e4}", "b\u{e4}", "b"]);
}

fn char_count(t: &str) -> u32 {
    t.chars().count() as u32
}

fn wide_digits(t: &str) -> u32 {
    t.chars().map(|c| if c.is_ascii_digit() { 3 } else { 1 }).sum()
}

#[test]
fn wrapping_within_a_width() {
    assert_eq!(wrap_line_within("123456789", &char_count, 3), vec![3, 6]);
    assert_eq!(wrap_line_within("123456789", &char_count, 9), Vec::<usize>::new());
    assert_eq!(wrap_line_within("123456789", &char_count, 8), vec![8]);
    assert_eq!(wrap_line_within("ab cd ef", &char_count, 5), vec![6]);
    assert_eq!(wrap_line_within("ab cd ef", &char_count, 4), vec![3, 6]);
    assert_eq!(wrap_line_within("ab 12 ef", &wide_digits, 6), vec![3, 6]);
    assert_eq!(wrap_line_within("ab 12 ef", &wide_digits, 9), vec![6]);
    assert_eq!(wrap_line_within("abcdef", &wide_digits, 0), vec![1, 2, 3, 4, 5]);
    let line = "This is a lot of words that should demonstrate word wrapping adequately";
    for limit in 0..80 {
        let within = wrap_line_within(line, &char_count, limit);
        assert_eq!(within, wrap_line(line, &wider_than(limit as usize)));
    }
}

#[test]
fn rows_of_fitting_words_fit_without_their_trailing_blanks() {
    let line = "This is a lot of words that should demonstrate word wrapping adequately";
    for limit in 11..80 {
        for row in rows_of(line, limit) {
            assert!(row.trim_end().chars().count() <= limit);
        }
    }
}

#[test]
fn split_points_are_checked_against_their_line() {
    assert!(are_splits_inside(&vec![], 0));
    assert!(are_splits_inside(&vec![], 5));
    assert!(are_splits_inside(&vec![1, 2, 4], 5));
    assert!(!are_splits_inside(&vec![0, 2], 5));
    assert!(!are_splits_inside(&vec![2, 2], 5));
    assert!(!are_splits_inside(&vec![3, 2], 5));
    assert!(!are_splits_inside(&vec![2, 5], 5));
    assert!(!are_splits_inside(&vec![1], 1));
    assert!(are_splits_inside(&wrap_line("a bbbbbbbbb c d", &wider_than(3)), 15));
}
