use aparte::input::Input;

#[test]
fn input_test_input_backspace() {
    // Given
    let mut input = Input::<()>::new();

    // When
    input.key('a');
    input.key('b');
    input.key('c');
    input.backspace();

    // Then
    assert_eq!(input.editor.buf, "ab".to_string());
}

#[test]
fn terminus_test_input_backspace() {
    // Given
    let mut input = Input::<()>::new();

    // When
    input.key('a');
    input.key('b');
    input.key('c');
    input.backspace();

    // Then
    assert_eq!(input.editor.buf, "ab".to_string());
}

use aparte::layout::{CursorPos, Dimensions, MeasureSpecs, RequestedDimension};
use aparte::rendering::{row_text, OffscreenRenderBuffer, ScreenFrame};

fn render_input(input: &mut Input<()>, width: u16) -> OffscreenRenderBuffer {
    let mut buf = OffscreenRenderBuffer::default();
    buf.set_size((width, 1u16).into());
    let dims = Dimensions { top: 0, left: 0, width, height: 1 };
    input.layout(&dims);
    let mut frame = ScreenFrame::new(buf, dims);
    input.render(&mut frame);
    frame.into_offscreen()
}

#[test]
fn test_on_focus_change_does_not_affect_cursor() {
    let mut input = Input::<()>::new();
    // Cursor visibility must not change on focus loss — mode changes manage it.
    input.on_focus_change(false);
    assert!(input.show_cursor);
}

#[test]
fn test_on_focus_change_true_shows_cursor() {
    let mut input = Input::<()>::new();
    input.on_focus_change(true);
    assert!(input.show_cursor);
}

#[test]
fn input_measures_one_row() {
    let input = Input::<()>::new();
    let r = input.measure(&MeasureSpecs::default());
    assert_eq!(r.height, RequestedDimension::Absolute(1));
    assert_eq!(r.width, RequestedDimension::ExpandMax);
}

#[test]
fn input_render_shows_text_and_places_cursor() {
    let mut input = Input::<()>::new();
    for c in "hey".chars() {
        input.key(c);
    }
    let buf = render_input(&mut input, 10);
    assert_eq!(row_text(&buf, 0, 10), "hey       ");
    assert_eq!(buf.cursor(), CursorPos { top: 0, left: 3 });
    assert!(buf.cursor_visible());
}

#[test]
fn input_render_scrolls_to_keep_cursor_in_view() {
    let mut input = Input::<()>::new();
    for c in "abcdefgh".chars() {
        input.key(c);
    }
    input.editor.view.set(0);
    let buf = render_input(&mut input, 4);
    // The cursor sits after 'h': the view starts at 'f' so that 3 letters
    // and the cursor fit in 4 columns.
    assert_eq!(input.editor.view.get(), 5);
    assert_eq!(row_text(&buf, 0, 4), "fgh ");
    assert_eq!(buf.cursor(), CursorPos { top: 0, left: 3 });
}

#[test]
fn input_render_password_shows_prompt_only() {
    let mut input = Input::<()>::new();
    input.password();
    input.key('s');
    let buf = render_input(&mut input, 12);
    assert_eq!(row_text(&buf, 0, 12), "password:   ");
    assert_eq!(buf.cursor(), CursorPos { top: 0, left: 10 });
    assert!(!buf.cursor_visible());
}
