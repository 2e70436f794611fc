use crab::{Crab, Cursor};

fn chars(s: &str) -> Vec<char> {
    s.chars().collect()
}

fn lines_of(c: &Crab) -> Vec<String> {
    c.lines().iter().map(|l| l.iter().collect()).collect()
}

fn at(row: usize, column: usize) -> Cursor {
    Cursor { row, column }
}

fn crab_at(text: &str, row: usize, column: usize) -> Crab {
    let mut c = Crab::from_text(&chars(text));
    for _ in 0..row {
        c.cursor_down(1000);
    }
    for _ in 0..column {
        c.cursor_right();
    }
    assert_eq!(c.cursor(), at(row, column));
    c
}

fn assert_cursor_valid(c: &Crab) {
    let lines = c.lines();
    assert!(!lines.is_empty());
    let cur = c.cursor();
    assert!(cur.row < lines.len());
    assert!(cur.column <= lines[cur.row].len());
}

#[test]
fn newline_at_end_of_line_opens_empty_line() {
    let mut c = crab_at("ab\ncd", 0, 2);
    c.insert('\n', 24);
    assert_eq!(lines_of(&c), vec!["ab", "", "cd"]);
    assert_eq!(c.cursor(), at(1, 0));
}

#[test]
fn backspace_at_line_start_joins_lines() {
    let mut c = crab_at("ab\ncd", 1, 0);
    c.back_space(24);
    assert_eq!(lines_of(&c), vec!["abcd"]);
    assert_eq!(c.cursor(), at(0, 2));
}

#[test]
fn backspace_at_buffer_start_does_nothing() {
    let mut c = crab_at("x", 0, 0);
    c.back_space(24);
    assert_eq!(lines_of(&c), vec!["x"]);
    assert_eq!(c.cursor(), at(0, 0));
}

#[test]
fn cursor_right_stops_at_line_end() {
    let mut c = crab_at("ab", 0, 2);
    c.cursor_right();
    assert_eq!(c.cursor(), at(0, 2));
}

#[test]
fn scroll_keeps_cursor_on_last_visible_row() {
    let text = "0\n1\n2\n3\n4\n5\n6\n7\n8\n9";
    let mut c = crab_at(text, 7, 0);
    assert_eq!(c.row_offset(), 0);
    c.scroll(3);
    assert_eq!(c.row_offset(), 5);
    assert_eq!(c.cursor().row - c.row_offset(), 2);
}

#[test]
fn scroll_twice_is_scroll_once() {
    let text = "0\n1\n2\n3\n4\n5\n6\n7\n8\n9";
    let mut c = crab_at(text, 7, 0);
    c.scroll(3);
    let first = c.row_offset();
    c.scroll(3);
    assert_eq!(c.row_offset(), first);
    for _ in 0..5 {
        c.cursor_up(3);
    }
    assert_eq!(c.row_offset(), 2);
    let again = c.row_offset();
    c.scroll(3);
    assert_eq!(c.row_offset(), again);
}

#[test]
fn scroll_up_follows_cursor_at_once() {
    let text = "0\n1\n2\n3\n4\n5\n6\n7\n8\n9";
    let mut c = crab_at(text, 9, 0);
    c.scroll(4);
    assert_eq!(c.row_offset(), 6);
    c.cursor_up(4);
    c.cursor_up(4);
    c.cursor_up(4);
    assert_eq!(c.row_offset(), 6);
    c.cursor_up(4);
    assert_eq!(c.cursor().row, 5);
    assert_eq!(c.row_offset(), 5);
}

#[test]
fn cursor_stays_in_window_after_moves() {
    let text = "alpha\nb\n\ngamma delta\ne\nf\ng";
    let mut c = Crab::from_text(&chars(text));
    let rows = 3;
    for step in 0..40 {
        match step % 7 {
            0 | 1 | 2 => c.cursor_down(rows),
            3 => c.cursor_right(),
            4 => c.cursor_up(rows),
            5 => c.cursor_left(),
            _ => c.cursor_right(),
        }
        assert_cursor_valid(&c);
        let cur = c.cursor();
        assert!(c.row_offset() <= cur.row && cur.row < c.row_offset() + rows);
    }
}

#[test]
fn buffer_never_empty_after_deleting_everything() {
    let mut c = crab_at("ab\nc\nd", 2, 1);
    for _ in 0..10 {
        c.back_space(24);
        assert_cursor_valid(&c);
    }
    assert_eq!(lines_of(&c), vec![""]);
    assert_eq!(c.cursor(), at(0, 0));
}

#[test]
fn edits_keep_cursor_valid() {
    let mut c = Crab::default();
    for ch in "héllo\nwörld\n\tx".chars() {
        c.insert(ch, 2);
        assert_cursor_valid(&c);
    }
    assert_eq!(lines_of(&c), vec!["héllo", "wörld", "x"]);
    assert_eq!(c.cursor(), at(2, 1));
    assert_eq!(c.row_offset(), 1);
    c.cursor_up(2);
    c.cursor_right();
    c.cursor_right();
    c.back_space(24);
    assert_cursor_valid(&c);
    assert_eq!(lines_of(&c), vec!["héllo", "wöld", "x"]);
    assert_eq!(c.cursor(), at(1, 2));
}

#[test]
fn insert_in_middle_of_line() {
    let mut c = crab_at("ac", 0, 1);
    c.insert('b', 24);
    assert_eq!(lines_of(&c), vec!["abc"]);
    assert_eq!(c.cursor(), at(0, 2));
}

#[test]
fn newline_in_middle_splits_line() {
    let mut c = crab_at("abcd\nz", 0, 1);
    c.insert('\n', 24);
    assert_eq!(lines_of(&c), vec!["a", "bcd", "z"]);
    assert_eq!(c.cursor(), at(1, 0));
}

#[test]
fn control_characters_are_ignored() {
    let mut c = crab_at("ab", 0, 1);
    c.insert('\t', 24);
    c.insert('\u{7f}', 24);
    c.insert('\u{85}', 24);
    c.insert('\r', 24);
    assert_eq!(lines_of(&c), vec!["ab"]);
    assert_eq!(c.cursor(), at(0, 1));
}

#[test]
fn backspace_in_line_deletes_previous_character() {
    let mut c = crab_at("abc", 0, 2);
    c.back_space(24);
    assert_eq!(lines_of(&c), vec!["ac"]);
    assert_eq!(c.cursor(), at(0, 1));
}

#[test]
fn vertical_moves_clamp_column() {
    let mut c = crab_at("abcdef\nxy\nlonger line", 0, 5);
    c.cursor_down(24);
    assert_eq!(c.cursor(), at(1, 2));
    c.cursor_down(24);
    assert_eq!(c.cursor(), at(2, 2));
    c.cursor_down(24);
    assert_eq!(c.cursor(), at(2, 2));
    c.cursor_up(24);
    c.cursor_up(24);
    assert_eq!(c.cursor(), at(0, 2));
    c.cursor_up(24);
    assert_eq!(c.cursor(), at(0, 2));
}

#[test]
fn cursor_left_stops_at_line_start() {
    let mut c = crab_at("ab", 0, 1);
    c.cursor_left();
    assert_eq!(c.cursor(), at(0, 0));
    c.cursor_left();
    assert_eq!(c.cursor(), at(0, 0));
}

#[test]
fn default_session_is_one_empty_line() {
    let c = Crab::default();
    assert_eq!(lines_of(&c), vec![""]);
    assert_eq!(c.cursor(), at(0, 0));
    assert_eq!(c.row_offset(), 0);
}

#[test]
fn join_on_top_visible_row_scrolls_up() {
    let mut c = crab_at("a\n\n", 1, 0);
    c.scroll(1);
    assert_eq!(c.row_offset(), 1);
    c.back_space(1);
    assert_eq!(lines_of(&c), vec!["a"]);
    assert_eq!(c.cursor(), at(0, 1));
    assert_eq!(c.row_offset(), 0);
}

#[test]
fn join_keeps_cursor_in_window() {
    let text = "0\n1\n2\n3\n4\n5\n6\n7";
    let mut c = crab_at(text, 7, 0);
    c.scroll(3);
    for _ in 0..3 {
        c.cursor_up(3);
    }
    assert_eq!(c.cursor(), at(4, 0));
    assert_eq!(c.row_offset(), 4);
    c.back_space(3);
    assert_eq!(c.cursor(), at(3, 1));
    assert_eq!(c.row_offset(), 3);
    assert_eq!(lines_of(&c), vec!["0", "1", "2", "34", "5", "6", "7"]);
}

#[test]
fn backspace_within_line_keeps_top_row() {
    let mut c = crab_at("ab\ncd", 1, 2);
    assert_eq!(c.row_offset(), 0);
    c.back_space(1);
    assert_eq!(lines_of(&c), vec!["ab", "c"]);
    assert_eq!(c.cursor(), at(1, 1));
    assert_eq!(c.row_offset(), 0);
}

#[test]
fn backspace_at_buffer_start_keeps_top_row() {
    let mut c = crab_at("x", 0, 0);
    c.back_space(0);
    assert_eq!(c.cursor(), at(0, 0));
    assert_eq!(c.row_offset(), 0);
}
