use textfield::cursor::Cursor;
use textfield::layout::{
    cursor_pos, cursor_x_pos, max_width, selection_first_line, selection_last_line,
    selection_middle_line, selection_of_line, selection_single_line, surely_fits,
};
use textfield::rect::Rect;

fn width_check(t: &str) -> u32 {
    t.chars().count() as u32
}

fn kerned(t: &str) -> u32 {
    let n = t.chars().count() as u32;
    if n == 2 {
        10 * n + 4
    } else {
        10 * n
    }
}

fn tight(t: &str) -> u32 {
    let n = t.chars().count() as u32;
    if n == 2 {
        17
    } else {
        10 * n
    }
}

fn huge(_t: &str) -> u32 {
    u32::MAX
}

fn rows() -> Vec<&'static str> {
    vec!["123", "456", "789", "0"]
}

fn rect(x: i32, y: i32, width: u32, height: u32) -> Rect {
    Rect { x, y, width, height }
}

#[test]
fn the_caret_before_the_first_character_is_at_zero() {
    assert_eq!(cursor_x_pos(0, "hello", &width_check), 0);
    assert_eq!(cursor_x_pos(0, "", &huge), 0);
    assert_eq!(cursor_x_pos(0, "hello", &huge), 0);
}

#[test]
fn the_caret_at_or_behind_the_end_is_at_the_width_of_the_line() {
    assert_eq!(cursor_x_pos(5, "hello", &width_check), 5);
    assert_eq!(cursor_x_pos(6, "hello", &width_check), 5);
    assert_eq!(cursor_x_pos(usize::MAX, "hello", &kerned), 50);
    assert_eq!(cursor_x_pos(3, "", &kerned), 0);
    assert_eq!(cursor_x_pos(2, "h\u{e4}", &width_check), 2);
}

#[test]
fn the_caret_between_characters_is_nudged_by_half_the_kerning() {
    assert_eq!(cursor_x_pos(3, "hello", &kerned), 32);
    assert_eq!(cursor_x_pos(2, "hello", &kerned), 26);
    assert_eq!(cursor_x_pos(3, "hello", &tight), 30);
    assert_eq!(cursor_x_pos(1, "h\u{e4}llo", &kerned), 12);
}

#[test]
fn offsets_are_clipped_to_the_largest_coordinate() {
    assert_eq!(cursor_x_pos(9, "hello", &huge), i32::MAX);
    assert_eq!(cursor_x_pos(2, "hello", &huge), i32::MAX);
}

#[test]
fn column_zero_is_at_the_start_of_the_first_row() {
    assert_eq!(cursor_pos(0, &rows(), &width_check), (0, 0));
    assert_eq!(cursor_pos(0, &vec!["", "abc"], &width_check), (0, 0));
    assert_eq!(cursor_pos(0, &Vec::<&str>::new(), &width_check), (0, 0));
}

#[test]
fn the_caret_row_and_column_add_up_to_the_column() {
    let rows = rows();
    for col in 0..10 {
        let (row, x) = cursor_pos(col, &rows, &width_check);
        let before: usize = rows[..row].iter().map(|r| r.chars().count()).sum();
        assert_eq!(before + x as usize, col);
    }
    assert_eq!(cursor_pos(1, &rows, &width_check), (0, 1));
    assert_eq!(cursor_pos(6, &rows, &width_check), (2, 0));
    assert_eq!(cursor_pos(8, &rows, &width_check), (2, 2));
    assert_eq!(cursor_pos(10, &rows, &width_check), (3, 1));
    assert_eq!(cursor_pos(100, &rows, &width_check), (3, 1));
    assert_eq!(cursor_pos(4, &vec!["hello"], &width_check), (0, 4));
    assert_eq!(cursor_pos(7, &vec!["hello"], &width_check), (0, 5));
}

#[test]
fn a_selection_within_one_row_is_one_rectangle() {
    let rects = selection_single_line(&rows(), 1, 2, &width_check, 30, 10);
    assert_eq!(rects, vec![rect(1, 0, 1, 10)]);
    let rects = selection_single_line(&rows(), 4, 6, &width_check, 30, 10);
    assert_eq!(rects, vec![rect(1, 10, 29, 10), rect(0, 20, 1, 10)]);
    let rects = selection_single_line(&vec!["hello"], 1, 4, &width_check, 30, 10);
    assert_eq!(rects, vec![rect(1, 0, 3, 10)]);
    let rects = selection_single_line(&rows(), 4, 4, &width_check, 30, 10);
    assert_eq!(rects, vec![rect(1, 10, 1, 10)]);
}

#[test]
fn a_selection_over_several_rows_covers_the_rows_between_in_full() {
    let rects = selection_single_line(&rows(), 1, 8, &width_check, 30, 10);
    assert_eq!(rects, vec![rect(1, 0, 29, 10), rect(0, 10, 30, 10), rect(0, 20, 2, 10)]);
    let rects = selection_single_line(&rows(), 2, 10, &width_check, 30, 10);
    assert_eq!(
        rects,
        vec![rect(2, 0, 28, 10), rect(0, 10, 30, 10), rect(0, 20, 30, 10), rect(0, 30, 1, 10)]
    );
}

#[test]
fn the_first_line_of_a_selection_is_covered_from_the_caret_on() {
    let rects = selection_first_line(&rows(), 4, &width_check, 30, 10);
    assert_eq!(rects, vec![rect(1, 10, 29, 10), rect(0, 20, 30, 10), rect(0, 30, 30, 10)]);
    let rects = selection_first_line(&rows(), 10, &width_check, 30, 10);
    assert_eq!(rects, vec![rect(1, 30, 29, 10)]);
    let rects = selection_first_line(&vec!["hello"], 2, &width_check, 30, 10);
    assert_eq!(rects, vec![rect(2, 0, 28, 10)]);
    let rects = selection_first_line(&vec!["hello"], 2, &width_check, 2, 10);
    assert_eq!(rects, Vec::<Rect>::new());
    let rects = selection_first_line(&rows(), 2, &width_check, 2, 10);
    assert_eq!(rects[0], rect(2, 0, 1, 10));
    assert_eq!(rects.len(), 4);
}

#[test]
fn the_last_line_of_a_selection_is_covered_up_to_the_caret() {
    let rects = selection_last_line(&rows(), 7, &width_check, 30, 10);
    assert_eq!(rects, vec![rect(0, 20, 1, 10), rect(0, 0, 30, 10), rect(0, 10, 30, 10)]);
    let rects = selection_last_line(&rows(), 0, &width_check, 30, 10);
    assert_eq!(rects, vec![rect(0, 0, 1, 10)]);
    let rects = selection_last_line(&vec!["hello"], 3, &width_check, 30, 10);
    assert_eq!(rects, vec![rect(0, 0, 3, 10)]);
}

#[test]
fn a_line_in_the_middle_of_a_selection_is_covered_in_full() {
    assert_eq!(selection_middle_line(4, 30, 10), rect(0, 0, 30, 40));
    assert_eq!(selection_middle_line(1, 30, 10), rect(0, 0, 30, 10));
    assert_eq!(selection_middle_line(0, 30, 10), rect(0, 0, 30, 1));
    assert_eq!(selection_middle_line(usize::MAX, 30, 10), rect(0, 0, 30, 0x3fff_ffff));
}

#[test]
fn each_line_gets_the_rectangles_of_its_part_of_the_selection() {
    let first = Cursor::new(2, 1);
    let last = Cursor::new(4, 7);
    let none = Vec::<Rect>::new();
    assert_eq!(selection_of_line(&rows(), 1, &first, &last, &width_check, 30, 10), none);
    assert_eq!(
        selection_of_line(&rows(), 2, &first, &last, &width_check, 30, 10),
        selection_first_line(&rows(), 1, &width_check, 30, 10)
    );
    assert_eq!(
        selection_of_line(&rows(), 3, &first, &last, &width_check, 30, 10),
        vec![rect(0, 0, 30, 40)]
    );
    assert_eq!(
        selection_of_line(&rows(), 4, &first, &last, &width_check, 30, 10),
        selection_last_line(&rows(), 7, &width_check, 30, 10)
    );
    assert_eq!(selection_of_line(&rows(), 5, &first, &last, &width_check, 30, 10), none);
    let last = Cursor::new(2, 8);
    assert_eq!(
        selection_of_line(&rows(), 2, &first, &last, &width_check, 30, 10),
        vec![rect(1, 0, 29, 10), rect(0, 10, 30, 10), rect(0, 20, 2, 10)]
    );
}

#[test]
fn rectangles_keep_within_the_coordinate_space() {
    assert_eq!(Rect::new(3, 4, 0, 7), rect(3, 4, 1, 7));
    assert_eq!(Rect::new(3, 4, 5, 0), rect(3, 4, 5, 1));
    assert_eq!(Rect::new(i32::MAX, i32::MIN, u32::MAX, 2), rect(0x3fff_ffff, -0x4000_0000, 0x3fff_ffff, 2));
    assert_eq!(Rect::new(-5, 0x3fff_ffff, 0x3fff_ffff, 0x4000_0000), rect(-5, 0x3fff_ffff, 0x3fff_ffff, 0x3fff_ffff));
    let far = selection_last_line(&vec!["a"; 3], 5, &huge, 30, u32::MAX);
    assert_eq!(far[0], rect(0, 0x3fff_ffff, 0x3fff_ffff, 0x3fff_ffff));
}

#[test]
fn a_text_surely_fits_where_its_widest_form_does() {
    assert!(surely_fits(10, 20, 200));
    assert!(!surely_fits(11, 20, 200));
    assert!(surely_fits(0, 20, 0));
    assert!(surely_fits(usize::MAX, 0, 0));
    assert!(!surely_fits(usize::MAX, u32::MAX, u32::MAX));
    assert!(surely_fits(1, u32::MAX, u32::MAX));
}

#[test]
fn the_largest_width() {
    assert_eq!(max_width(&vec![]), 0);
    assert_eq!(max_width(&vec![3, 9, 4]), 9);
    assert_eq!(max_width(&vec![0, 0]), 0);
    assert_eq!(max_width(&vec![7]), 7);
}
