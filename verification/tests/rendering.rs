use aparte::decimal::{decimal_string, zero_padded_string};
use aparte::charxel::{Charxel, Charxels, ContinuationCell, Grapheme};
use aparte::color::{BgColor, Color, FgColor, NamedColor};
use aparte::layout::{CursorPos, CursorStyle, Dimensions};
use aparte::paint::PaintOp;
use aparte::rendering::{row_text, ContinuousDiff, OffscreenRenderBuffer, ScreenFrame, ScreenSize};

fn buffer(width: u16, height: u16) -> OffscreenRenderBuffer {
    let mut b = OffscreenRenderBuffer::default();
    b.set_size((width, height).into());
    b
}

fn set_text(b: &mut OffscreenRenderBuffer, row: u16, col: u16, text: &str) {
    let mut c = b.get(row, col).clone();
    c.grapheme = Grapheme::from_str(text);
    b.set(row as usize, col as usize, c);
}

fn full_area(width: u16, height: u16) -> Dimensions {
    Dimensions { top: 0, left: 0, width, height }
}

#[test]
fn continuation_cell_is_distinct_from_default() {
    assert_ne!(Charxel::from_continuation(ContinuationCell), Charxel::default());
}

#[test]
fn compute_diff_clears_continuation_replaced_by_default() {
    // Reference: 🔒 at col 0, continuation sentinel at col 1.
    let mut reference = OffscreenRenderBuffer::default();
    reference.set_size((4u16, 1u16).into());
    reference.set(0, 0, Charxel::new(Grapheme::from_str("🔒")));
    reference.set(0, 1, Charxel::from_continuation(ContinuationCell));

    // New render: all Charxel::default() (🔒 was removed, no explicit colour).
    let mut current = OffscreenRenderBuffer::default();
    current.set_size((4u16, 1u16).into());

    let diffs = current.compute_diff(reference.lines());

    let diffed_cols: Vec<u16> = diffs
        .iter()
        .flat_map(|d| {
            let mut off = 0u16;
            d.charxels.iter().map(move |cx| {
                let col = d.pos.left + off;
                off += cx.display_width().max(1);
                col
            })
        })
        .collect();

    assert!(
        diffed_cols.contains(&1),
        "continuation col 1 not in diff; diffs: {:?}",
        diffs
    );
}

#[test]
fn compute_diff_pushes_last_open_diff() {
    let mut reference = OffscreenRenderBuffer::default();
    reference.set_size((3u16, 2u16).into());
    for row in 0..2u16 {
        for col in 0..3u16 {
            set_text(&mut reference, row, col, "A");
        }
    }

    let mut current = OffscreenRenderBuffer::default();
    current.set_size((3u16, 2u16).into());
    for row in 0..2u16 {
        for col in 0..3u16 {
            set_text(&mut current, row, col, "A");
        }
    }
    // Only the last cell differs.
    set_text(&mut current, 1, 2, "B");

    let diffs = current.compute_diff(reference.lines());

    assert_eq!(diffs.len(), 1, "last open diff must be pushed");
    assert_eq!(diffs[0].pos.top, 1);
    assert_eq!(diffs[0].pos.left, 2);
    assert_eq!(diffs[0].charxels.len(), 1);
    assert_eq!(diffs[0].charxels[0].grapheme.as_str(), "B");
}

#[test]
fn compute_diff_groups_consecutive_changes() {
    let reference = buffer(5, 1);
    let mut current = buffer(5, 1);
    set_text(&mut current, 0, 1, "x");
    set_text(&mut current, 0, 2, "y");
    set_text(&mut current, 0, 4, "z");
    let diffs = current.compute_diff(reference.lines());
    assert_eq!(diffs.len(), 2);
    assert_eq!((diffs[0].pos.top, diffs[0].pos.left), (0, 1));
    assert_eq!(diffs[0].charxels.len(), 2);
    assert_eq!((diffs[1].pos.top, diffs[1].pos.left), (0, 4));
    assert_eq!(diffs[1].charxels[0].grapheme.as_str(), "z");
}

#[test]
fn compute_diff_of_equal_buffers_is_empty() {
    let a = buffer(3, 3);
    let b = buffer(3, 3);
    assert!(a.compute_diff(b.lines()).is_empty());
}

#[test]
fn apply_diff_brings_reference_up_to_date() {
    let mut reference = buffer(4, 2);
    let mut current = buffer(4, 2);
    set_text(&mut current, 0, 3, "a");
    set_text(&mut current, 1, 0, "b");
    let diffs = current.compute_diff(reference.lines());
    reference.apply_diff(diffs);
    assert!(current.compute_diff(reference.lines()).is_empty());
    assert_eq!(row_text(&reference, 0, 4), "   a");
    assert_eq!(row_text(&reference, 1, 4), "b   ");
}

#[test]
fn apply_diff_marks_wide_cells_and_wraps() {
    let mut b = buffer(3, 2);
    let d = ContinuousDiff {
        pos: CursorPos { top: 0, left: 2 },
        charxels: vec![Charxel::new(Grapheme::from_str("🔒"))],
    };
    b.apply_diff(vec![d]);
    assert_eq!(b.get(0, 2).grapheme.as_str(), "🔒");
    assert!(b.get(1, 0).continuation);
}

#[test]
fn set_size_blanks_every_cell() {
    let b = buffer(2, 3);
    assert_eq!(b.size(), ScreenSize::new(2, 3));
    assert_eq!(b.lines().len(), 3);
    for row in 0..3u16 {
        assert_eq!(row_text(&b, row, 2), "  ");
    }
}

#[test]
fn clear_blanks_cells_and_drops_cursor_priority() {
    let mut b = buffer(2, 1);
    set_text(&mut b, 0, 0, "q");
    b.set_cursor_with_priority(CursorPos { top: 0, left: 1 }, 5);
    b.clear();
    assert_eq!(row_text(&b, 0, 2), "  ");
    b.set_cursor_with_priority(CursorPos { top: 0, left: 0 }, 1);
    assert_eq!(b.cursor(), CursorPos { top: 0, left: 0 });
}

#[test]
fn cursor_priority_keeps_higher_placement() {
    let mut b = buffer(4, 4);
    b.set_cursor_with_priority(CursorPos { top: 1, left: 1 }, 3);
    b.set_cursor_with_priority(CursorPos { top: 2, left: 2 }, 2);
    assert_eq!(b.cursor(), CursorPos { top: 1, left: 1 });
    b.set_cursor_with_priority(CursorPos { top: 3, left: 3 }, 3);
    assert_eq!(b.cursor(), CursorPos { top: 3, left: 3 });
}

#[test]
fn first_render_is_full_and_second_is_empty() {
    let mut current = buffer(2, 1);
    let mut reference = OffscreenRenderBuffer::default();
    set_text(&mut current, 0, 0, "h");
    let ops = current.render(&mut reference);
    assert!(matches!(ops[0], PaintOp::HideCursor));
    assert!(matches!(ops[1], PaintOp::MoveTo { left: 0, top: 0 }));
    assert!(matches!(ops[2], PaintOp::ClearAll));
    let printed: Vec<String> = ops
        .iter()
        .filter_map(|op| match op {
            PaintOp::Print(s) => Some(s.clone()),
            _ => None,
        })
        .collect();
    assert_eq!(printed, vec!["h".to_string(), " ".to_string()]);
    assert!(matches!(ops.last(), Some(PaintOp::HideCursor)));
    let again = current.render(&mut reference);
    assert!(again.is_empty());
}

#[test]
fn render_sends_only_changes_and_bell() {
    let mut current = buffer(3, 1);
    let mut reference = OffscreenRenderBuffer::default();
    current.render(&mut reference);
    set_text(&mut current, 0, 2, "z");
    current.bell();
    let ops = current.render(&mut reference);
    assert!(matches!(ops[0], PaintOp::MoveTo { left: 2, top: 0 }));
    let printed: Vec<String> = ops
        .iter()
        .filter_map(|op| match op {
            PaintOp::Print(s) => Some(s.clone()),
            _ => None,
        })
        .collect();
    assert_eq!(printed, vec!["z".to_string()]);
    assert!(matches!(ops.last(), Some(PaintOp::Bell)));
    assert!(current.render(&mut reference).is_empty());
}

#[test]
fn render_shows_cursor_when_visible() {
    let mut current = buffer(3, 1);
    let mut reference = OffscreenRenderBuffer::default();
    current.render(&mut reference);
    current.set_cursor_visible(true);
    current.set_cursor(CursorPos { top: 0, left: 2 });
    current.set_cursor_style(CursorStyle::SteadyBlock);
    let ops = current.render(&mut reference);
    assert_eq!(ops.len(), 3);
    assert!(matches!(ops[0], PaintOp::SetCursorStyle(CursorStyle::SteadyBlock)));
    assert!(matches!(ops[1], PaintOp::MoveTo { left: 2, top: 0 }));
    assert!(matches!(ops[2], PaintOp::ShowCursor));
}

#[test]
fn full_render_request_redraws_everything() {
    let mut current = buffer(1, 1);
    let mut reference = OffscreenRenderBuffer::default();
    current.render(&mut reference);
    current.request_full_render();
    let ops = current.render(&mut reference);
    assert!(matches!(ops[2], PaintOp::ClearAll));
}

#[test]
fn frame_write_expands_tabs_to_next_stop() {
    let mut frame = ScreenFrame::new(buffer(12, 1), full_area(12, 1));
    frame.write(Charxels::from_str("a\tb"));
    let b = frame.into_offscreen();
    assert_eq!(row_text(&b, 0, 12), "a       b   ");
}

#[test]
fn frame_write_stops_before_wide_char_that_does_not_fit() {
    let mut frame = ScreenFrame::new(buffer(3, 1), full_area(3, 1));
    frame.write(Charxels::from_str("ab🔒"));
    let b = frame.into_offscreen();
    assert_eq!(row_text(&b, 0, 3), "ab ");
}

#[test]
fn frame_write_marks_continuation_of_wide_char() {
    let mut frame = ScreenFrame::new(buffer(4, 1), full_area(4, 1));
    frame.write(Charxels::from_str("🔒x"));
    let b = frame.into_offscreen();
    assert_eq!(b.get(0, 0).grapheme.as_str(), "🔒");
    assert!(b.get(0, 1).continuation);
    assert_eq!(b.get(0, 2).grapheme.as_str(), "x");
}

#[test]
fn frame_write_at_is_relative_to_area() {
    let area = Dimensions { top: 1, left: 2, width: 3, height: 1 };
    let mut frame = ScreenFrame::new(buffer(6, 2), area);
    frame.write_at(CursorPos { top: 0, left: 1 }, Charxels::from_str("hello"));
    let b = frame.into_offscreen();
    assert_eq!(row_text(&b, 1, 6), "   he ");
    assert_eq!(row_text(&b, 0, 6), "      ");
}

#[test]
fn frame_background_stays_in_area() {
    let area = Dimensions { top: 0, left: 1, width: 1, height: 1 };
    let mut frame = ScreenFrame::new(buffer(3, 1), area);
    let red = BgColor(Color::Named(NamedColor::Red));
    frame.set_background(red);
    let b = frame.into_offscreen();
    assert_eq!(b.get(0, 1).background, red);
    assert_eq!(b.get(0, 0).background, BgColor(Color::Default));
    assert_eq!(b.get(0, 2).background, BgColor(Color::Default));
}

#[test]
fn highlight_text_ignores_case_and_marks_every_match() {
    let mut frame = ScreenFrame::new(buffer(8, 1), full_area(8, 1));
    frame.write(Charxels::from_str("abAbxab"));
    let fg = FgColor(Color::Named(NamedColor::Yellow));
    let bg = BgColor(Color::Named(NamedColor::Blue));
    frame.highlight_text("AB", fg, bg);
    let b = frame.into_offscreen();
    for col in [0u16, 1, 2, 3, 5, 6] {
        assert_eq!(b.get(0, col).foreground, fg, "col {col}");
        assert_eq!(b.get(0, col).background, bg, "col {col}");
    }
    assert_eq!(b.get(0, 4).background, BgColor(Color::Default));
    assert_eq!(b.get(0, 7).background, BgColor(Color::Default));
}

#[test]
fn highlight_text_with_empty_query_changes_nothing() {
    let mut frame = ScreenFrame::new(buffer(2, 1), full_area(2, 1));
    frame.highlight_text("", FgColor(Color::Default), BgColor(Color::Named(NamedColor::Red)));
    let b = frame.into_offscreen();
    assert_eq!(b.get(0, 0).background, BgColor(Color::Default));
}

#[test]
fn dump_lists_cells_with_widths() {
    let mut buf = OffscreenRenderBuffer::default();
    buf.set_size(ScreenSize::from((2u16, 2u16)));
    let mut c = buf.get(1, 0).clone();
    c.set_grapheme("界".to_string());
    buf.set(1, 0, c);
    assert_eq!(buf.dump_text(), "ROW 000: [  w=1] [  w=1]\nROW 001: [界 w=2] [  w=1]\n");
}

#[test]
fn decimal_numbers() {
    assert_eq!(decimal_string(0), "0");
    assert_eq!(decimal_string(907), "907");
    assert_eq!(decimal_string(u64::MAX), "18446744073709551615");
    assert_eq!(zero_padded_string(7, 3), "007");
    assert_eq!(zero_padded_string(1234, 3), "1234");
    assert_eq!(zero_padded_string(0, 0), "0");
}

#[test]
fn applying_the_diff_rebuilds_the_frame() {
    let mut shown = buffer(4, 2);
    set_text(&mut shown, 0, 1, "x");
    let mut frame = buffer(4, 2);
    set_text(&mut frame, 0, 0, "a");
    set_text(&mut frame, 1, 3, "z");
    let diffs = frame.compute_diff(shown.lines());
    shown.apply_diff(diffs);
    for row in 0..2u16 {
        for col in 0..4u16 {
            assert_eq!(shown.get(row, col).grapheme.as_str(), frame.get(row, col).grapheme.as_str());
        }
    }
}
