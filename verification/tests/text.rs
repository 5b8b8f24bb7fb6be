use aparte::text::{clean, clean_str, term_string_visible_len, term_string_visible_truncate};

#[test]
fn lib_test_term_string_clean() {
    // Given
    let input = "test \x1b[5mBlink";

    // When
    let cleaned = clean_str(input);

    // Then
    assert_eq!(cleaned, "test Blink");
}

#[test]
fn lib_test_term_string_visible_truncate() {
    // Given
    let input = "test \x1b[5mBlink";

    // When
    let truncated = term_string_visible_truncate(input, 6, None);

    // Then
    assert_eq!(truncated, "test \x1b[5mB");
}

#[test]
fn lib_test_term_string_visible_truncate_and_append() {
    // Given
    let input = "test \x1b[5mBlink";

    // When
    let truncated = term_string_visible_truncate(input, 6, Some("…"));

    // Then
    assert_eq!(truncated, "test …");
}

#[test]
fn mod_test_term_string_clean() {
    // Given
    let input = "test \x1b[5mBlink";

    // When
    let cleaned = clean(input);

    // Then
    assert_eq!(cleaned, "test Blink");
}

#[test]
fn mod_test_term_string_visible_truncate() {
    // Given
    let input = "test \x1b[5mBlink";

    // When
    let truncated = term_string_visible_truncate(input, 6, None);

    // Then
    assert_eq!(truncated, "test \x1b[5mB");
}

#[test]
fn mod_test_term_string_visible_truncate_and_append() {
    // Given
    let input = "test \x1b[5mBlink";

    // When
    let truncated = term_string_visible_truncate(input, 6, Some("…"));

    // Then
    assert_eq!(truncated, "test …");
}

#[test]
fn terminus_test_term_string_visible_len_is_correct() {
    assert_eq!(term_string_visible_len("\x1b[48;5;1mab\x1b[123;1H"), 2);
    assert_eq!(term_string_visible_len("\x1b[123;1Hab\x1b[48;5;1m"), 2);
    assert_eq!(term_string_visible_len("\x1b[123;1H🍻\x1b[48;5;1m"), 1);
    assert_eq!(term_string_visible_len("\x1b[38;5;7m12:34:56 - \x1b[38;5;3mme:\x1b[38;5;7m"), 14);
}

#[test]
fn mod_test_term_string_visible_len_is_correct() {
    assert_eq!(term_string_visible_len("\x1b[48;5;1mab\x1b[123;1H"), 2);
    assert_eq!(term_string_visible_len("\x1b[123;1Hab\x1b[48;5;1m"), 2);
    assert_eq!(term_string_visible_len("\x1b[123;1H🍻\x1b[48;5;1m"), 1);
    assert_eq!(term_string_visible_len("\x1b[38;5;7m12:34:56 - \x1b[38;5;3mme:\x1b[38;5;7m"), 14);
}

#[test]
fn terminus_test_term_string_clean() {
    let input = "test \x1b[5mBlink";
    let cleaned = clean(input);
    assert_eq!(cleaned, "test Blink");
}

#[test]
fn terminus_test_term_string_visible_truncate() {
    let input = "test \x1b[5mBlink";
    let truncated = term_string_visible_truncate(input, 6, None);
    assert_eq!(truncated, "test \x1b[5mB");
}

#[test]
fn terminus_test_term_string_visible_truncate_and_append() {
    let input = "test \x1b[5mBlink";
    let truncated = term_string_visible_truncate(input, 6, Some("…"));
    assert_eq!(truncated, "test …");
}

#[test]
fn clean_drops_escape_after_escape() {
    assert_eq!(clean_str("\x1b\x1b"), "");
    assert_eq!(clean_str("a\x1b\x1bb"), "ab");
    assert_eq!(clean_str("\x1b[1\x1b2mx"), "x");
    assert_eq!(clean_str("\x1bxy"), "xy");
    let once = clean_str("\x1b[\x1b\x1b[31mred\x1b\x1b\x1b");
    assert!(!once.contains('\x1b'));
    assert_eq!(clean_str(&once), once);
}
