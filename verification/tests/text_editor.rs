use aparte::motion::{Action, Motion, Operator};
use aparte::text_editor::TextEditor;


#[test]
fn new_editor_is_empty_with_cursor_at_zero() {
    let editor = TextEditor::new();
    assert_eq!(editor.buf, "");
    assert_eq!(editor.cursor.get(), 0);
    assert_eq!(editor.view.get(), 0);
}

#[test]
fn with_text_initializes_buffer_and_puts_cursor_at_end() {
    let editor = TextEditor::with_text("hello");
    assert_eq!(editor.buf, "hello");
    assert_eq!(editor.cursor.get(), 5);
}

#[test]
fn key_inserts_at_cursor_and_advances() {
    let mut editor = TextEditor::new();
    editor.key('a');
    editor.key('b');
    editor.key('c');
    assert_eq!(editor.buf, "abc");
    assert_eq!(editor.cursor.get(), 3);
}

#[test]
fn key_inserts_in_middle() {
    let mut editor = TextEditor::with_text("ac");
    editor.left();
    editor.key('b');
    assert_eq!(editor.buf, "abc");
    assert_eq!(editor.cursor.get(), 2);
}

#[test]
fn backspace_removes_char_before_cursor() {
    let mut editor = TextEditor::new();
    editor.key('a');
    editor.key('b');
    editor.key('c');
    editor.backspace();
    assert_eq!(editor.buf, "ab");
    assert_eq!(editor.cursor.get(), 2);
}

#[test]
fn backspace_at_start_is_noop() {
    let mut editor = TextEditor::with_text("abc");
    editor.home();
    editor.backspace();
    assert_eq!(editor.buf, "abc");
    assert_eq!(editor.cursor.get(), 0);
}

#[test]
fn delete_removes_char_at_cursor() {
    let mut editor = TextEditor::with_text("abc");
    editor.home();
    editor.delete();
    assert_eq!(editor.buf, "bc");
    assert_eq!(editor.cursor.get(), 0);
}

#[test]
fn delete_at_end_is_noop() {
    let mut editor = TextEditor::with_text("abc");
    editor.delete();
    assert_eq!(editor.buf, "abc");
}

#[test]
fn left_moves_cursor_back_within_bounds() {
    let mut editor = TextEditor::with_text("ab");
    editor.left();
    assert_eq!(editor.cursor.get(), 1);
    editor.left();
    assert_eq!(editor.cursor.get(), 0);
    editor.left();
    assert_eq!(editor.cursor.get(), 0);
}

#[test]
fn right_moves_cursor_forward_within_bounds() {
    let mut editor = TextEditor::with_text("ab");
    editor.home();
    editor.right();
    assert_eq!(editor.cursor.get(), 1);
    editor.right();
    assert_eq!(editor.cursor.get(), 2);
    editor.right();
    assert_eq!(editor.cursor.get(), 2);
}

#[test]
fn home_and_end_jump_cursor() {
    let mut editor = TextEditor::with_text("hello");
    editor.home();
    assert_eq!(editor.cursor.get(), 0);
    editor.end();
    assert_eq!(editor.cursor.get(), 5);
}

#[test]
fn word_right_jumps_past_word() {
    let mut editor = TextEditor::with_text("foo bar");
    editor.home();
    editor.word_right();
    assert_eq!(editor.cursor.get(), 3);
}

#[test]
fn word_left_jumps_back_a_word() {
    let mut editor = TextEditor::with_text("foo bar");
    editor.word_left();
    assert_eq!(editor.cursor.get(), 4);
}

#[test]
fn backward_delete_word_removes_previous_word() {
    let mut editor = TextEditor::with_text("foo bar");
    editor.backward_delete_word();
    assert_eq!(editor.buf, "foo ");
}

#[test]
fn delete_from_cursor_to_start() {
    let mut editor = TextEditor::with_text("hello world");
    // place cursor after "hello "
    editor.home();
    for _ in 0..6 {
        editor.right();
    }
    editor.delete_from_cursor_to_start();
    assert_eq!(editor.buf, "world");
    assert_eq!(editor.cursor.get(), 0);
}

#[test]
fn delete_from_cursor_to_end() {
    let mut editor = TextEditor::with_text("hello world");
    editor.home();
    for _ in 0..5 {
        editor.right();
    }
    editor.delete_from_cursor_to_end();
    assert_eq!(editor.buf, "hello");
}

#[test]
fn clear_resets_everything() {
    let mut editor = TextEditor::with_text("hello");
    editor.clear();
    assert_eq!(editor.buf, "");
    assert_eq!(editor.cursor.get(), 0);
    assert_eq!(editor.view.get(), 0);
}

#[test]
fn key_with_multibyte_codepoint() {
    let mut editor = TextEditor::new();
    editor.key('🍺');
    editor.key('a');
    assert_eq!(editor.buf, "🍺a");
    assert_eq!(editor.cursor.get(), 2);
}

#[test]
fn backspace_on_multibyte_codepoint() {
    let mut editor = TextEditor::with_text("🍺a");
    editor.backspace();
    assert_eq!(editor.buf, "🍺");
    assert_eq!(editor.cursor.get(), 1);
    editor.backspace();
    assert_eq!(editor.buf, "");
    assert_eq!(editor.cursor.get(), 0);
}

// ── motion_target ─────────────────────────────────────────────────────────

fn at(text: &str, pos: usize) -> TextEditor {
    let mut ed = TextEditor::with_text(text);
    ed.cursor.set(pos);
    ed
}

#[test]
fn motion_left_moves_back() {
    assert_eq!(at("foo bar", 3).motion_target(&Motion::Left, 1), 2);
}

#[test]
fn motion_left_floors_at_zero() {
    assert_eq!(at("foo bar", 0).motion_target(&Motion::Left, 1), 0);
}

#[test]
fn motion_right_moves_forward() {
    assert_eq!(at("foo bar", 3).motion_target(&Motion::Right, 1), 4);
}

#[test]
fn motion_right_caps_at_last_char() {
    // "foo bar" has len=7, last grapheme index = 6
    assert_eq!(at("foo bar", 6).motion_target(&Motion::Right, 1), 6);
}

#[test]
fn motion_line_start() {
    assert_eq!(at("foo bar", 4).motion_target(&Motion::LineStart, 1), 0);
}

#[test]
fn motion_line_end() {
    assert_eq!(at("foo bar", 0).motion_target(&Motion::LineEnd, 1), 6);
}

#[test]
fn motion_first_non_blank_skips_leading_spaces() {
    assert_eq!(at("  foo", 4).motion_target(&Motion::FirstNonBlank, 1), 2);
}

#[test]
fn motion_first_non_blank_on_no_leading_spaces() {
    assert_eq!(at("foo", 2).motion_target(&Motion::FirstNonBlank, 1), 0);
}

#[test]
fn motion_word_forward_to_next_word() {
    // "foo bar": w from 'f'(0) → 'b'(4)
    assert_eq!(at("foo bar", 0).motion_target(&Motion::WordForward, 1), 4);
}

#[test]
fn motion_word_forward_skips_extra_spaces() {
    // "foo  bar": w from 0 → 5
    assert_eq!(at("foo  bar", 0).motion_target(&Motion::WordForward, 1), 5);
}

#[test]
fn motion_word_forward_at_last_word_caps() {
    // "foo bar": w from 'b'(4) has no next word → caps at len-1=6
    assert_eq!(at("foo bar", 4).motion_target(&Motion::WordForward, 1), 6);
}

#[test]
fn motion_word_forward_count_2() {
    // "foo bar baz": 2w from 0 → 8 ('b' in "baz")
    assert_eq!(
        at("foo bar baz", 0).motion_target(&Motion::WordForward, 2),
        8
    );
}

#[test]
fn motion_word_backward_to_word_start() {
    // "foo bar": b from 'r'(6) → 'b'(4)
    assert_eq!(at("foo bar", 6).motion_target(&Motion::WordBackward, 1), 4);
}

#[test]
fn motion_word_backward_from_start_of_word() {
    // "foo bar": b from 'b'(4) → 'f'(0)
    assert_eq!(at("foo bar", 4).motion_target(&Motion::WordBackward, 1), 0);
}

#[test]
fn motion_word_end_to_end_of_word() {
    // "foo bar": e from 'f'(0) → 'o'(2)
    assert_eq!(at("foo bar", 0).motion_target(&Motion::WordEnd, 1), 2);
}

#[test]
fn motion_word_end_from_end_jumps_to_next() {
    // "foo bar": e from 'o'(2) → 'r'(6)
    assert_eq!(at("foo bar", 2).motion_target(&Motion::WordEnd, 1), 6);
}

#[test]
fn motion_bigword_forward_skips_punctuation() {
    // "foo,bar baz": W from 0 → 8 ('b' in "baz")
    assert_eq!(
        at("foo,bar baz", 0).motion_target(&Motion::BigWordForward, 1),
        8
    );
}

#[test]
fn motion_bigword_backward() {
    // "foo,bar baz": B from 8 → 0
    assert_eq!(
        at("foo,bar baz", 8).motion_target(&Motion::BigWordBackward, 1),
        0
    );
}

#[test]
fn motion_bigword_end_skips_punctuation() {
    // "foo,bar baz": E from 0 → 6 (last char of "foo,bar")
    assert_eq!(
        at("foo,bar baz", 0).motion_target(&Motion::BigWordEnd, 1),
        6
    );
}

// ── delete_motion ─────────────────────────────────────────────────────────

#[test]
fn delete_word_forward_exclusive() {
    let mut ed = at("foo bar", 0);
    let rv = ed.delete_motion(&Motion::WordForward, 1);
    assert_eq!(ed.buf, "bar");
    assert_eq!(ed.cursor.get(), 0);
    assert_eq!(rv.text, "foo ");
}

#[test]
fn delete_word_end_inclusive() {
    let mut ed = at("foo bar", 0);
    let rv = ed.delete_motion(&Motion::WordEnd, 1);
    assert_eq!(ed.buf, " bar");
    assert_eq!(ed.cursor.get(), 0);
    assert_eq!(rv.text, "foo");
}

#[test]
fn delete_to_line_end_inclusive() {
    let mut ed = at("foo bar", 4);
    let rv = ed.delete_motion(&Motion::LineEnd, 1);
    assert_eq!(ed.buf, "foo ");
    assert_eq!(rv.text, "bar");
    // cursor at end of remaining buf (len-1 = 3)
    assert_eq!(ed.cursor.get(), 3);
}

#[test]
fn delete_left() {
    let mut ed = at("foo bar", 4);
    let rv = ed.delete_motion(&Motion::Left, 1);
    assert_eq!(ed.buf, "foobar");
    assert_eq!(rv.text, " ");
    assert_eq!(ed.cursor.get(), 3);
}

#[test]
fn delete_right() {
    let mut ed = at("foo bar", 0);
    let rv = ed.delete_motion(&Motion::Right, 1);
    assert_eq!(ed.buf, "oo bar");
    assert_eq!(rv.text, "f");
    assert_eq!(ed.cursor.get(), 0);
}

#[test]
fn delete_right_at_last_char() {
    let mut ed = at("foo", 2);
    let rv = ed.delete_motion(&Motion::Right, 1);
    assert_eq!(ed.buf, "fo");
    assert_eq!(rv.text, "o");
    assert_eq!(ed.cursor.get(), 1);
}

#[test]
fn delete_whole_line() {
    let mut ed = at("foo bar", 3);
    let rv = ed.delete_motion(&Motion::WholeLine, 1);
    assert_eq!(ed.buf, "");
    assert_eq!(rv.text, "foo bar");
    assert_eq!(ed.cursor.get(), 0);
}

#[test]
fn delete_word_backward() {
    let mut ed = at("foo bar", 7);
    ed.cursor.set(7); // past end (Insert-mode position)
    let rv = ed.delete_motion(&Motion::WordBackward, 1);
    assert_eq!(ed.buf, "foo ");
    assert_eq!(rv.text, "bar");
}

// ── yank_motion ───────────────────────────────────────────────────────────

#[test]
fn yank_word_does_not_modify_buffer() {
    let ed = at("foo bar", 0);
    let rv = ed.yank_motion(&Motion::WordForward, 1);
    assert_eq!(ed.buf, "foo bar");
    assert_eq!(ed.cursor.get(), 0);
    assert_eq!(rv.text, "foo ");
}

#[test]
fn yank_whole_line() {
    let ed = at("foo bar", 3);
    let rv = ed.yank_motion(&Motion::WholeLine, 1);
    assert_eq!(rv.text, "foo bar");
}

// ── apply_action ──────────────────────────────────────────────────────────

#[test]
fn apply_action_move() {
    let mut ed = at("foo bar", 0);
    let rv = ed.apply_action(&Action {
        count: 1,
        register: None,
        operator: Operator::Move,
        motion: Motion::WordForward,
    });
    assert!(rv.is_none());
    assert_eq!(ed.cursor.get(), 4);
}

#[test]
fn apply_action_delete_returns_register_value() {
    let mut ed = at("foo bar", 0);
    let rv = ed.apply_action(&Action {
        count: 1,
        register: None,
        operator: Operator::Delete,
        motion: Motion::WordForward,
    });
    assert!(rv.is_some());
    assert_eq!(rv.unwrap().text, "foo ");
    assert_eq!(ed.buf, "bar");
}

#[test]
fn apply_action_yank_does_not_modify() {
    let mut ed = at("foo bar", 0);
    let rv = ed.apply_action(&Action {
        count: 1,
        register: None,
        operator: Operator::Yank,
        motion: Motion::WholeLine,
    });
    assert_eq!(rv.unwrap().text, "foo bar");
    assert_eq!(ed.buf, "foo bar");
}


#[test]
fn yank_returns_what_delete_removes() {
    for (text, cursor, motion) in [
        ("foo bar", 0, Motion::WordForward),
        ("foo bar", 3, Motion::WholeLine),
        ("foo bar baz", 5, Motion::WordEnd),
        ("foo bar", 2, Motion::Left),
    ] {
        let ed = at(text, cursor);
        let yanked = ed.yank_motion(&motion, 1);
        let mut deleting = at(text, cursor);
        let deleted = deleting.delete_motion(&motion, 1);
        assert_eq!(yanked.text, deleted.text);
        let mut acting = at(text, cursor);
        let acted = acting.apply_action(&Action { count: 1, register: None, operator: Operator::Change, motion });
        assert_eq!(acted.unwrap().text, deleted.text);
        assert_eq!(acting.buf, deleting.buf);
        assert_eq!(acting.cursor.get(), deleting.cursor.get());
    }
}
