use aparte::color::{BgColor, Color, ColorTuple, FgColor, NamedColor};
use aparte::charxel::Charxels;
use aparte::label::Label;
use aparte::layout::{CursorPos, Dimensions, MeasureSpec, RequestedDimension, RequestedDimensions};
use aparte::popup::{content_specs, draw_border, place_content, PopupColors};
use aparte::rendering::{row_text, OffscreenRenderBuffer, ScreenFrame, ScreenSize};

const W: u16 = 40;
const H: u16 = 10;

fn parent() -> Dimensions {
    Dimensions { top: 0, left: 0, width: W, height: H }
}

fn absolute(width: u16, height: u16) -> RequestedDimensions {
    RequestedDimensions {
        width: RequestedDimension::Absolute(width),
        height: RequestedDimension::Absolute(height),
    }
}

fn theme() -> ColorTuple {
    ColorTuple {
        bg: BgColor(Color::Named(NamedColor::Blue)),
        fg: FgColor(Color::Named(NamedColor::White)),
    }
}

#[test]
fn popup_specs_bound_content() {
    let specs = content_specs(&parent()).unwrap();
    assert_eq!(specs.width, MeasureSpec::AtMost(30));
    assert_eq!(specs.height, MeasureSpec::AtMost(7));
}

#[test]
fn popup_needs_room_for_border() {
    let small = Dimensions { top: 0, left: 0, width: 3, height: 10 };
    assert!(content_specs(&small).is_none());
    assert!(place_content(&small, &absolute(1, 1)).is_none());
    let low = Dimensions { top: 0, left: 0, width: 10, height: 3 };
    assert!(place_content(&low, &absolute(1, 1)).is_none());
}

#[test]
fn popup_small_content_is_centered() {
    let (inner, outer) = place_content(&parent(), &absolute(5, 1)).unwrap();
    assert_eq!(outer, Dimensions { top: 3, left: 16, width: 7, height: 3 });
    assert_eq!(inner, Dimensions { top: 4, left: 17, width: 5, height: 1 });
}

#[test]
fn popup_height_is_lines_plus_border() {
    let (_, outer) = place_content(&parent(), &absolute(10, 3)).unwrap();
    assert_eq!(outer.height, 5);
    assert_eq!(outer.width, 12);
}

#[test]
fn popup_expanding_content_takes_three_quarters() {
    let expand = RequestedDimensions {
        width: RequestedDimension::ExpandMax,
        height: RequestedDimension::ExpandMax,
    };
    let (inner, outer) = place_content(&parent(), &expand).unwrap();
    assert_eq!(outer, Dimensions { top: 0, left: 4, width: 32, height: 9 });
    assert_eq!(inner, Dimensions { top: 1, left: 5, width: 30, height: 7 });
}

#[test]
fn popup_large_request_is_capped() {
    let (inner, _) = place_content(&parent(), &absolute(200, 0)).unwrap();
    assert_eq!(inner.width, 30);
    assert_eq!(inner.height, 1);
}

#[test]
fn popup_offset_parent() {
    let p = Dimensions { top: 2, left: 5, width: 8, height: 4 };
    let (inner, outer) = place_content(&p, &absolute(1, 1)).unwrap();
    assert_eq!(outer, Dimensions { top: 2, left: 7, width: 3, height: 3 });
    assert_eq!(inner, Dimensions { top: 3, left: 8, width: 1, height: 1 });
}

#[test]
fn popup_border_over_background() {
    let mut buf = OffscreenRenderBuffer::default();
    buf.set_size(ScreenSize::from((W, H)));
    let mut background = Label::new("background".to_string());
    background.layout(&parent());
    let mut frame = ScreenFrame::new(buf, parent());
    background.render(&mut frame);
    let mut buf = frame.into_offscreen();

    let (inner, outer) = place_content(&parent(), &absolute(5, 1)).unwrap();
    draw_border(&mut buf, &outer, &theme());
    let content = Label::new("hello".to_string());
    let mut frame = ScreenFrame::new(buf, inner);
    content.render(&mut frame);
    let buf = frame.into_offscreen();

    assert!(row_text(&buf, 0, W).contains("background"));
    assert_eq!(row_text(&buf, 3, W).trim(), "┌─────┐");
    assert_eq!(row_text(&buf, 4, W).trim(), "│hello│");
    assert_eq!(row_text(&buf, 5, W).trim(), "└─────┘");
    let corner = buf.get(3, 16);
    assert_eq!(corner.background, BgColor(Color::Named(NamedColor::Blue)));
    assert_eq!(corner.foreground, FgColor(Color::Named(NamedColor::White)));
    assert_eq!(buf.get(4, 17).grapheme.as_str(), "h");
    assert_eq!(buf.get(4, 16).grapheme.as_str(), "│");
    assert_eq!(buf.get(4, 15).background, BgColor(Color::Default));
}

#[test]
fn popup_border_clears_inside() {
    let mut buf = OffscreenRenderBuffer::default();
    buf.set_size(ScreenSize::from((6u16, 5u16)));
    let all = Dimensions { top: 0, left: 0, width: 6, height: 5 };
    let mut frame = ScreenFrame::new(buf, all);
    for row in 0..5u16 {
        frame.write_at(CursorPos { top: row, left: 0 }, Charxels::from_str("######"));
    }
    let mut buf = frame.into_offscreen();
    let dims = Dimensions { top: 1, left: 1, width: 4, height: 3 };
    draw_border(&mut buf, &dims, &theme());
    assert_eq!(row_text(&buf, 0, 6), "######");
    assert_eq!(row_text(&buf, 1, 6), "#┌──┐#");
    assert_eq!(row_text(&buf, 2, 6), "#│  │#");
    assert_eq!(row_text(&buf, 3, 6), "#└──┘#");
    assert_eq!(row_text(&buf, 4, 6), "######");
    assert_eq!(buf.get(2, 2).background, BgColor(Color::Named(NamedColor::Blue)));
    assert_eq!(buf.get(2, 2).foreground, FgColor(Color::Default));
}

#[test]
fn popup_border_needs_two_cells() {
    let mut buf = OffscreenRenderBuffer::default();
    buf.set_size(ScreenSize::from((4u16, 4u16)));
    let dims = Dimensions { top: 0, left: 0, width: 1, height: 4 };
    draw_border(&mut buf, &dims, &theme());
    assert_eq!(row_text(&buf, 0, 4), "    ");
    assert_eq!(buf.get(0, 0).background, BgColor(Color::Default));
}

#[test]
fn popup_default_colors() {
    let c = ().popup_colors();
    assert_eq!(c.bg, BgColor(Color::Default));
    assert_eq!(c.fg, FgColor(Color::Default));
}
