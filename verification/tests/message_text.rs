use aparte::message_text::{hanging_indent, prefix_lines};

#[test]
fn body_lines_hang_under_first() {
    assert_eq!(hanging_indent("hello\nworld\r\nfoo", 3), "hello\n   world\n   foo");
}

#[test]
fn body_single_line_is_kept() {
    assert_eq!(hanging_indent("hello", 8), "hello");
    assert_eq!(hanging_indent("hello\n", 8), "hello");
    assert_eq!(hanging_indent("", 8), "");
}

#[test]
fn body_empty_lines_are_padded() {
    assert_eq!(hanging_indent("a\n\nb", 2), "a\n  \n  b");
}

#[test]
fn log_lines_each_get_prefix() {
    assert_eq!(prefix_lines("12:00:00 - ", "started\nready"), "12:00:00 - started\n12:00:00 - ready\n");
    assert_eq!(prefix_lines("> ", ""), "");
}
