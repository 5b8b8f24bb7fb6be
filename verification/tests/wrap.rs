use aparte::wrap::{rendered_items, split_lines, wrap_line, RowWindow};

#[test]
fn wrap_cuts_between_word_segments() {
    assert_eq!(wrap_line("hello world", 5), vec!["hello", " ", "world"]);
    assert_eq!(wrap_line("hello world", 11), vec!["hello world"]);
    assert_eq!(wrap_line("", 4), vec![""]);
}

#[test]
fn wrap_keeps_escape_sequences_out_of_the_count() {
    // The color sequence is kept in the chunk but only "red" counts.
    assert_eq!(wrap_line("\x1b[31mred", 3), vec!["\x1b[31mred"]);
    // An invalid sequence is dropped.
    assert_eq!(wrap_line("\x1b[\u{7f}ok", 5), vec!["ok"]);
}

#[test]
fn split_lines_follows_str_lines() {
    let text = "a\r\nb\n\nc\r";
    let expected: Vec<String> = text.lines().map(str::to_string).collect();
    assert_eq!(split_lines(text), expected);
    assert!(split_lines("").is_empty());
    assert_eq!(split_lines("x\n"), vec!["x"]);
}

#[test]
fn rendered_items_wraps_every_line_of_every_item() {
    let items = vec!["hello world".to_string(), "x\ny".to_string()];
    assert_eq!(rendered_items(&items, 5), vec!["hello", " ", "world", "x", "y"]);
}

#[test]
fn row_window_pages() {
    let mut w = RowWindow { view: 0, width: 10, height: 3 };
    assert!(!w.page_up(10));
    assert_eq!(w.view, 3);
    assert!(!w.page_up(10));
    assert_eq!(w.view, 6);
    assert!(w.page_up(10));
    assert_eq!(w.view, 7);
    assert_eq!(w.rows_above(10), 0);
    assert!(!w.page_down());
    assert_eq!(w.view, 4);
    assert_eq!(w.rows_above(10), 3);
    assert!(!w.page_down());
    assert_eq!(w.view, 1);
    assert!(w.page_down());
    assert_eq!(w.view, 0);
    assert!(w.page_up(2));
    assert_eq!(w.view, 0);
}
