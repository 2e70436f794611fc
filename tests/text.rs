use crab::{Crab, is_control, is_whitespace};

fn chars(s: &str) -> Vec<char> {
    s.chars().collect()
}

fn lines_of(c: &Crab) -> Vec<String> {
    c.lines().iter().map(|l| l.iter().collect()).collect()
}

fn text_of(c: &Crab) -> String {
    c.to_text().iter().collect()
}

#[test]
fn load_strips_trailing_white_space() {
    let c = Crab::from_text(&chars("let x = 1;  \r\n  y\t\n\u{3000}\nz"));
    assert_eq!(lines_of(&c), vec!["let x = 1;", "  y", "", "z"]);
}

#[test]
fn load_of_empty_text_is_one_empty_line() {
    let c = Crab::from_text(&Vec::new());
    assert_eq!(lines_of(&c), vec![""]);
    assert_eq!(c.cursor().row, 0);
    assert_eq!(c.cursor().column, 0);
    assert_eq!(c.row_offset(), 0);
}

#[test]
fn load_keeps_empty_lines_but_not_the_final_newline() {
    let c = Crab::from_text(&chars("\n"));
    assert_eq!(lines_of(&c), vec![""]);
    let c = Crab::from_text(&chars("a\n\n"));
    assert_eq!(lines_of(&c), vec!["a", ""]);
    let c = Crab::from_text(&chars("a\n\nb"));
    assert_eq!(lines_of(&c), vec!["a", "", "b"]);
}

#[test]
fn save_ends_every_line_with_newline() {
    let c = Crab::from_text(&chars("ab\ncd"));
    assert_eq!(text_of(&c), "ab\ncd\n");
    assert_eq!(text_of(&Crab::default()), "\n");
}

#[test]
fn save_then_load_gives_same_lines() {
    let mut c = Crab::default();
    for ch in "fn main() {\n    go();\n\n}".chars() {
        c.insert(ch, 10);
    }
    let before = lines_of(&c);
    let again = Crab::from_text(&c.to_text());
    assert_eq!(lines_of(&again), before);
    assert_eq!(lines_of(&again), vec!["fn main() {", "    go();", "", "}"]);
}

#[test]
fn save_then_load_drops_trailing_space() {
    let mut c = Crab::default();
    c.insert('a', 10);
    c.insert(' ', 10);
    let again = Crab::from_text(&c.to_text());
    assert_eq!(lines_of(&again), vec!["a"]);
}

#[test]
fn white_space_and_control_classes() {
    for c in [' ', '\t', '\n', '\r', '\u{b}', '\u{c}', '\u{85}', '\u{a0}', '\u{2003}', '\u{3000}'] {
        assert!(is_whitespace(c));
        assert_eq!(is_whitespace(c), c.is_whitespace());
    }
    for c in ['a', '_', '\u{200b}', '\u{0}'] {
        assert!(!is_whitespace(c));
    }
    for c in ['\u{0}', '\n', '\u{1f}', '\u{7f}', '\u{9f}'] {
        assert!(is_control(c));
    }
    for c in [' ', 'a', '\u{a0}', 'é'] {
        assert!(!is_control(c));
    }
}
