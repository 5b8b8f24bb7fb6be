use aparte::label::Label;
use aparte::layout::{CursorPos, Dimensions, MeasureSpecs, RequestedDimension};
use aparte::rendering::{OffscreenRenderBuffer, ScreenFrame, ScreenSize};

fn render_label(text: &str, width: u16) -> OffscreenRenderBuffer {
    let mut buf = OffscreenRenderBuffer::default();
    buf.set_size(ScreenSize::from((width, 1u16)));
    let dims = Dimensions { top: 0, left: 0, width, height: 1 };
    let mut label = Label::new(text.to_string());
    label.layout(&dims);
    let mut frame = ScreenFrame::new(buf, dims);
    label.render(&mut frame);
    frame.into_offscreen()
}

#[test]
fn label_renders_text_at_origin() {
    let buf = render_label("hello", 20);
    let text: String = (0..5).map(|col| buf.get(0, col).grapheme.as_str().to_owned()).collect();
    assert_eq!(text, "hello");
}

#[test]
fn label_measures_expand_max() {
    let label = Label::new("test".to_string());
    let dims = label.measure(&MeasureSpecs::default());
    assert_eq!(dims.height, RequestedDimension::ExpandMax);
}

#[test]
fn label_is_cut_at_area_edge() {
    let buf = render_label("abcdef", 3);
    let text: String = (0..3).map(|col| buf.get(0, col).grapheme.as_str().to_owned()).collect();
    assert_eq!(text, "abc");
    assert_eq!(buf.cursor(), CursorPos { top: 0, left: 0 });
}

#[test]
fn labels_compare_by_text() {
    assert!(Label::new("a".to_string()) == Label::new("a".to_string()));
    assert!(Label::new("a".to_string()) != Label::new("b".to_string()));
}
