use textfield::cursor::Cursor;
use textfield::textfield::{split_text, Textfield};

fn lines_of(field: &Textfield) -> Vec<&str> {
    field.lines.iter().map(|line| line.as_str()).collect()
}

fn field_at(text: &str, line: usize, col: usize) -> Textfield {
    let mut field = Textfield::new(text);
    field.cursor = Cursor::new(line, col);
    field.selection_marker = Cursor::new(line, col);
    field
}

fn field_with(text: &str, cursor: (usize, usize), marker: (usize, usize)) -> Textfield {
    let mut field = Textfield::new(text);
    field.cursor = Cursor::new(cursor.0, cursor.1);
    field.selection_marker = Cursor::new(marker.0, marker.1);
    field
}

#[test]
fn a_new_field_holds_the_lines_of_the_text() {
    let field = Textfield::new("Hello world!\nWhat's up?");
    assert_eq!(lines_of(&field), vec!["Hello world!", "What's up?"]);
    assert_eq!(field.cursor, Cursor::new(0, 0));
    assert_eq!(field.selection_marker, Cursor::new(0, 0));
    assert!(!field.has_selection());
    assert_eq!(lines_of(&Textfield::new("")), vec![""]);
    assert_eq!(lines_of(&Textfield::new("a\n")), vec!["a", ""]);
    assert_eq!(lines_of(&Textfield::new("\n\n")), vec!["", "", ""]);
    assert_eq!(lines_of(&Textfield::new("a\r\nb")), vec!["a\r", "b"]);
}

#[test]
fn a_text_is_split_at_its_newlines() {
    assert_eq!(split_text(""), vec![""]);
    assert_eq!(split_text("abc"), vec!["abc"]);
    assert_eq!(split_text("a\n\u{e4}\nc"), vec!["a", "\u{e4}", "c"]);
    assert_eq!(split_text("\nabc\n"), vec!["", "abc", ""]);
}

#[test]
fn left_stops_at_the_start_of_the_document() {
    let mut field = Textfield::new("Hello world!");
    for _ in 0..5 {
        field.right();
    }
    assert_eq!(field.cursor, Cursor::new(0, 5));
    for _ in 0..20 {
        field.left();
    }
    assert_eq!(field.cursor, Cursor::new(0, 0));
    assert!(!field.has_selection());
}

#[test]
fn right_stops_at_the_end_of_the_document() {
    let mut field = Textfield::new("ab\ncd");
    for _ in 0..20 {
        field.right();
    }
    assert_eq!(field.cursor, Cursor::new(1, 2));
    assert_eq!(field.selection_marker, Cursor::new(1, 2));
}

#[test]
fn the_column_is_kept_over_short_lines() {
    let mut field = field_at("abcdef\nab\nabcdef", 0, 5);
    field.down();
    assert_eq!(field.cursor, Cursor::new(1, 5));
    assert_eq!(field.cons_cursor(), Cursor::new(1, 2));
    assert!(!field.has_selection());
    field.down();
    assert_eq!(field.cursor, Cursor::new(2, 5));
    field.down();
    assert_eq!(field.cursor, Cursor::new(2, 6));
    field.up();
    field.up();
    assert_eq!(field.cursor, Cursor::new(0, 6));
    field.up();
    assert_eq!(field.cursor, Cursor::new(0, 0));
}

#[test]
fn left_from_a_kept_column_starts_at_the_end_of_the_line() {
    let mut field = field_at("abcdef\nab", 1, 5);
    field.left();
    assert_eq!(field.cursor, Cursor::new(1, 1));
    let mut field = field_at("abc\n", 1, 3);
    field.left();
    assert_eq!(field.cursor, Cursor::new(0, 3));
}

#[test]
fn selecting_moves_the_marker_only() {
    let mut field = field_at("abc\ndefgh", 0, 1);
    assert!(!field.has_selection());
    field.select_right();
    assert_eq!(field.cursor, Cursor::new(0, 1));
    assert_eq!(field.selection_marker, Cursor::new(0, 2));
    assert!(field.has_selection());
    assert_eq!(field.selected_text(), "b");
    field.select_right();
    field.select_right();
    assert_eq!(field.selection_marker, Cursor::new(1, 0));
    assert_eq!(field.selected_text(), "bc\n");
    field.select_down();
    assert_eq!(field.selection_marker, Cursor::new(1, 5));
    field.select_up();
    assert_eq!(field.selection_marker, Cursor::new(0, 5));
    assert_eq!(field.cons_marker(), Cursor::new(0, 3));
    assert_eq!(field.selected_text(), "bc");
    field.select_left();
    assert_eq!(field.selection_marker, Cursor::new(0, 2));
    field.select_left();
    assert!(!field.has_selection());
    field.select_left();
    assert_eq!(field.selection_marker, Cursor::new(0, 0));
    assert_eq!(field.cursor, Cursor::new(0, 1));
    assert_eq!(field.selected_text(), "a");
}

#[test]
fn selecting_sets_out_from_where_the_cursor_is_shown() {
    let mut field = field_at("abcdef\nab", 0, 5);
    field.down();
    field.select_left();
    assert_eq!(field.cursor, Cursor::new(1, 5));
    assert_eq!(field.selection_marker, Cursor::new(1, 1));
    assert_eq!(field.selected_text(), "b");
    let mut field = field_at("abcdef\nab", 1, 5);
    field.select_up();
    assert_eq!(field.selection_marker, Cursor::new(0, 2));
    assert_eq!(field.selected_text(), "cdef\nab");
}

#[test]
fn clear_selection_moves_the_marker_to_the_cursor() {
    let mut field = field_with("abcdef\nab", (1, 7), (0, 2));
    assert!(field.has_selection());
    field.clear_selection();
    assert_eq!(field.selection_marker, Cursor::new(1, 7));
    assert_eq!(field.cursor, Cursor::new(1, 7));
    assert!(!field.has_selection());
}

#[test]
fn a_selection_of_columns_behind_the_end_is_none() {
    let field = field_with("abc", (0, 3), (0, 8));
    assert!(!field.has_selection());
    let mut field = field_with("abc", (0, 9), (0, 8));
    assert!(!field.has_selection());
    assert_eq!(field.selected_text(), "");
    field.delete_selection();
    assert_eq!(lines_of(&field), vec!["abc"]);
    assert_eq!(field.cursor, Cursor::new(0, 9));
    assert_eq!(field.selection_marker, Cursor::new(0, 8));
}

#[test]
fn left_and_right_collapse_a_selection() {
    let mut field = field_with("abc\ndefgh", (1, 3), (0, 2));
    field.left();
    assert_eq!(field.cursor, Cursor::new(0, 2));
    assert_eq!(field.selection_marker, Cursor::new(0, 2));
    let mut field = field_with("abc\ndefgh", (1, 3), (0, 2));
    field.right();
    assert_eq!(field.cursor, Cursor::new(1, 3));
    assert_eq!(field.selection_marker, Cursor::new(1, 3));
    let mut field = field_with("abc\ndefgh", (0, 2), (1, 3));
    field.right();
    assert_eq!(field.cursor, Cursor::new(1, 3));
    let mut field = field_with("abc\ndefgh", (0, 2), (1, 3));
    field.left();
    assert_eq!(field.cursor, Cursor::new(0, 2));
}

#[test]
fn up_and_down_collapse_a_selection_and_keep_the_column_of_the_cursor() {
    let mut field = field_with("abcdef\nab\nabcdef", (2, 5), (1, 1));
    field.up();
    assert_eq!(field.cursor, Cursor::new(0, 5));
    assert_eq!(field.selection_marker, Cursor::new(0, 5));
    let mut field = field_with("abcdef\nab\nabcdef", (0, 4), (1, 1));
    field.down();
    assert_eq!(field.cursor, Cursor::new(2, 4));
    assert_eq!(field.selection_marker, Cursor::new(2, 4));
    let mut field = field_with("abcdef\nab\nabcdef", (1, 1), (0, 4));
    field.up();
    assert_eq!(field.cursor, Cursor::new(0, 0));
    let mut field = field_with("abcdef\nab\nabcdef", (1, 1), (2, 3));
    field.down();
    assert_eq!(field.cursor, Cursor::new(2, 6));
    let mut field = field_with("abcdef\nab\nabcdef", (1, 9), (2, 3));
    field.up();
    assert_eq!(field.cursor, Cursor::new(0, 9));
}

#[test]
fn insert_newline_at_the_end_of_a_line() {
    let mut field = Textfield::new("Hello");
    for _ in 0..5 {
        field.right();
    }
    field.insert("\n");
    assert_eq!(lines_of(&field), vec!["Hello", ""]);
    assert_eq!(field.cursor, Cursor::new(1, 0));
    assert_eq!(field.selection_marker, Cursor::new(1, 0));
}

#[test]
fn insert_newline_within_a_word() {
    let mut field = Textfield::new("Hello");
    for _ in 0..4 {
        field.right();
    }
    field.insert("\n");
    assert_eq!(lines_of(&field), vec!["Hell", "o"]);
    assert_eq!(field.cursor, Cursor::new(1, 0));
}

#[test]
fn insert_puts_text_in_at_the_cursor() {
    let mut field = field_at("abc\ndef", 0, 1);
    field.insert("x");
    assert_eq!(lines_of(&field), vec!["axbc", "def"]);
    assert_eq!(field.cursor, Cursor::new(0, 2));
    assert_eq!(field.selection_marker, Cursor::new(0, 2));
    field.insert("\u{e4}\u{f6}");
    assert_eq!(lines_of(&field), vec!["ax\u{e4}\u{f6}bc", "def"]);
    assert_eq!(field.cursor, Cursor::new(0, 4));
    field.insert("");
    assert_eq!(lines_of(&field), vec!["ax\u{e4}\u{f6}bc", "def"]);
    assert_eq!(field.cursor, Cursor::new(0, 4));
}

#[test]
fn insert_of_several_lines() {
    let mut field = field_at("abc\ndef", 0, 1);
    field.insert("x\ny\nzz");
    assert_eq!(lines_of(&field), vec!["ax", "y", "zzbc", "def"]);
    assert_eq!(field.cursor, Cursor::new(2, 2));
    let mut field = field_at("abc\ndef", 1, 3);
    field.insert("1\n2\n3\n4\n");
    assert_eq!(lines_of(&field), vec!["abc", "def1", "2", "3", "4", ""]);
    assert_eq!(field.cursor, Cursor::new(5, 0));
    let mut field = field_at("abc\ndef", 0, 1);
    field.insert("x\n");
    assert_eq!(lines_of(&field), vec!["ax", "bc", "def"]);
    assert_eq!(field.cursor, Cursor::new(1, 0));
    let mut field = field_at("abc\ndef", 1, 0);
    field.insert("\n\n");
    assert_eq!(lines_of(&field), vec!["abc", "", "", "def"]);
    assert_eq!(field.cursor, Cursor::new(3, 0));
}

#[test]
fn insert_at_a_kept_column_goes_to_the_end_of_the_line() {
    let mut field = field_at("abcdef\nab", 1, 5);
    field.insert("X");
    assert_eq!(lines_of(&field), vec!["abcdef", "abX"]);
    assert_eq!(field.cursor, Cursor::new(1, 3));
}

#[test]
fn insert_takes_the_place_of_the_selection() {
    let mut field = field_with("abc\ndefgh", (1, 3), (0, 2));
    field.insert("-\n-");
    assert_eq!(lines_of(&field), vec!["ab-", "-gh"]);
    assert_eq!(field.cursor, Cursor::new(1, 1));
    assert!(!field.has_selection());
}

#[test]
fn delete_selection_over_two_lines() {
    let mut field = Textfield::new("abc\ndefgh");
    field.right();
    field.right();
    field.select_down();
    field.select_right();
    assert_eq!(field.cursor, Cursor::new(0, 2));
    assert_eq!(field.selection_marker, Cursor::new(1, 3));
    assert!(field.has_selection());
    field.delete_selection();
    assert_eq!(lines_of(&field), vec!["abgh"]);
    assert_eq!(field.cursor, Cursor::new(0, 2));
    assert!(!field.has_selection());
}

#[test]
fn delete_selection_joins_what_is_left_of_its_first_and_last_line() {
    let mut field = field_with("abc\ndefgh", (0, 2), (1, 2));
    field.delete_selection();
    assert_eq!(lines_of(&field), vec!["abfgh"]);
    assert_eq!(field.cursor, Cursor::new(0, 2));
    assert_eq!(field.selection_marker, Cursor::new(0, 2));
    let mut field = field_with("one\ntwo\nthree\nfour\nfive", (3, 1), (0, 3));
    field.delete_selection();
    assert_eq!(lines_of(&field), vec!["oneour", "five"]);
    assert_eq!(field.cursor, Cursor::new(0, 3));
    let mut field = field_with("abcdef", (0, 4), (0, 1));
    field.delete_selection();
    assert_eq!(lines_of(&field), vec!["aef"]);
    assert_eq!(field.cursor, Cursor::new(0, 1));
    let mut field = field_with("abc\ndef", (1, 9), (0, 0));
    field.delete_selection();
    assert_eq!(lines_of(&field), vec![""]);
    assert_eq!(field.cursor, Cursor::new(0, 0));
}

#[test]
fn delete_selection_without_a_selection_changes_nothing() {
    let mut field = field_at("abc\ndef", 1, 2);
    field.delete_selection();
    assert_eq!(lines_of(&field), vec!["abc", "def"]);
    assert_eq!(field.cursor, Cursor::new(1, 2));
}

#[test]
fn delete_previous_deletes_backwards() {
    let mut field = field_at("abc\nd\u{e4}f", 1, 2);
    field.delete_previous();
    assert_eq!(lines_of(&field), vec!["abc", "df"]);
    assert_eq!(field.cursor, Cursor::new(1, 1));
    field.delete_previous();
    assert_eq!(lines_of(&field), vec!["abc", "f"]);
    assert_eq!(field.cursor, Cursor::new(1, 0));
    field.delete_previous();
    assert_eq!(lines_of(&field), vec!["abcf"]);
    assert_eq!(field.cursor, Cursor::new(0, 3));
    assert_eq!(field.selection_marker, Cursor::new(0, 3));
    for _ in 0..10 {
        field.delete_previous();
    }
    assert_eq!(lines_of(&field), vec!["f"]);
    assert_eq!(field.cursor, Cursor::new(0, 0));
}

#[test]
fn delete_previous_from_a_kept_column_deletes_the_last_character() {
    let mut field = field_at("abcdef\nab", 1, 5);
    field.delete_previous();
    assert_eq!(lines_of(&field), vec!["abcdef", "a"]);
    assert_eq!(field.cursor, Cursor::new(1, 1));
    let mut field = field_at("abc\n", 1, 4);
    field.delete_previous();
    assert_eq!(lines_of(&field), vec!["abc"]);
    assert_eq!(field.cursor, Cursor::new(0, 3));
}

#[test]
fn delete_next_deletes_forwards() {
    let mut field = field_at("a\u{e4}c\ndef", 0, 1);
    field.delete_next();
    assert_eq!(lines_of(&field), vec!["ac", "def"]);
    assert_eq!(field.cursor, Cursor::new(0, 1));
    field.delete_next();
    assert_eq!(lines_of(&field), vec!["a", "def"]);
    field.delete_next();
    assert_eq!(lines_of(&field), vec!["adef"]);
    assert_eq!(field.cursor, Cursor::new(0, 1));
    for _ in 0..10 {
        field.delete_next();
    }
    assert_eq!(lines_of(&field), vec!["a"]);
    assert_eq!(field.cursor, Cursor::new(0, 1));
    assert_eq!(field.selection_marker, Cursor::new(0, 1));
}

#[test]
fn delete_next_from_a_kept_column_joins_the_next_line() {
    let mut field = field_at("ab\ncd", 0, 7);
    field.delete_next();
    assert_eq!(lines_of(&field), vec!["abcd"]);
    assert_eq!(field.cursor, Cursor::new(0, 2));
}

#[test]
fn deleting_with_a_selection_deletes_the_selection() {
    let mut field = field_with("abc\ndefgh", (1, 3), (0, 2));
    field.delete_previous();
    assert_eq!(lines_of(&field), vec!["abgh"]);
    assert_eq!(field.cursor, Cursor::new(0, 2));
    let mut field = field_with("abc\ndefgh", (1, 3), (0, 2));
    field.delete_next();
    assert_eq!(lines_of(&field), vec!["abgh"]);
    assert_eq!(field.cursor, Cursor::new(0, 2));
}

#[test]
fn selected_text_joins_the_selected_lines() {
    let mut field = field_with("one\ntwo\nthree\nfour", (0, 1), (3, 2));
    assert_eq!(field.selected_text(), "ne\ntwo\nthree\nfo");
    assert_eq!(lines_of(&field), vec!["one", "two", "three", "four"]);
    assert_eq!(field.cursor, Cursor::new(0, 1));
    assert_eq!(field.selection_marker, Cursor::new(3, 2));
    let mut field = field_with("one\ntwo", (1, 0), (0, 3));
    assert_eq!(field.selected_text(), "\n");
    let mut field = field_with("one\n\ntwo", (2, 0), (0, 3));
    assert_eq!(field.selected_text(), "\n\n");
    let mut field = field_with("h\u{e4}llo", (0, 1), (0, 3));
    assert_eq!(field.selected_text(), "\u{e4}l");
    let mut field = field_at("hello", 0, 3);
    assert_eq!(field.selected_text(), "");
}

#[test]
fn inserting_what_was_deleted_restores_the_lines() {
    let text = "one\ntwo\n\nthree\nf\u{fc}nf";
    let ends = [(0, 0), (0, 2), (0, 3), (1, 1), (2, 0), (3, 5), (4, 2), (4, 4), (4, 9)];
    for cursor in ends.iter() {
        for marker in ends.iter() {
            let mut field = field_with(text, *cursor, *marker);
            let selected = field.has_selection();
            let picked = field.selected_text();
            assert_eq!(picked.is_empty(), !selected);
            field.delete_selection();
            field.insert(&picked);
            assert_eq!(lines_of(&field), vec!["one", "two", "", "three", "f\u{fc}nf"]);
            assert!(!field.has_selection());
        }
    }
}

#[test]
fn a_document_always_has_a_line() {
    let mut field = Textfield::new("one\ntwo\nthree");
    field.select_down();
    field.select_down();
    field.select_down();
    field.delete_selection();
    assert_eq!(lines_of(&field), vec![""]);
    for _ in 0..3 {
        field.delete_previous();
        field.delete_next();
        field.left();
        field.up();
        field.select_up();
        field.select_left();
        field.delete_selection();
        assert_eq!(field.lines.len(), 1);
    }
    field.insert("a\nb");
    field.select_up();
    field.delete_next();
    field.down();
    field.right();
    field.select_right();
    field.select_down();
    assert_eq!(lines_of(&field), vec!["a"]);
    assert_eq!(field.cursor, Cursor::new(0, 1));
    field.delete_previous();
    assert_eq!(lines_of(&field), vec![""]);
    assert_eq!(field.cursor, Cursor::new(0, 0));
}

#[test]
fn is_document_tells_whether_the_field_holds_a_document() {
    let field = Textfield::new("one\ntwo");
    assert!(field.is_document());
    assert!(field_with("one\ntwo", (1, 99), (0, 7)).is_document());
    assert!(!field_with("one\ntwo", (2, 0), (0, 0)).is_document());
    assert!(!field_with("one\ntwo", (0, 0), (2, 0)).is_document());
    let mut broken = Textfield::new("one\ntwo");
    broken.lines[1].push('\n');
    assert!(!broken.is_document());
    let mut empty = Textfield::new("");
    assert!(empty.is_document());
    empty.lines.clear();
    assert!(!empty.is_document());
}
