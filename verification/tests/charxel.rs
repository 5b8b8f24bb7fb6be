use aparte::charxel::{Charxels, IntoCharxels};
use aparte::color::{BgColor, Color, ColorTuple, FgColor, NamedColor};
use aparte::layout::Style;

fn graphemes(c: &Charxels) -> Vec<String> {
    c.0.iter().map(|x| x.grapheme.as_str().to_string()).collect()
}

#[test]
fn text_becomes_one_cell_per_cluster() {
    let c = "ae\u{301}b".into_charxels();
    assert_eq!(graphemes(&c), vec!["a", "e\u{301}", "b"]);
    let s = String::from("xy").into_charxels();
    assert_eq!(graphemes(&s), vec!["x", "y"]);
    assert_eq!(s.0[0].background, BgColor(Color::Default));
}

#[test]
fn text_with_color_paints_every_cell() {
    let color = ColorTuple {
        bg: BgColor(Color::Named(NamedColor::Blue)),
        fg: FgColor(Color::Rgb(1, 2, 3)),
    };
    let c = "hi".with_color(&color);
    assert_eq!(c.0.len(), 2);
    for cell in c.0.iter() {
        assert_eq!(cell.background, color.bg);
        assert_eq!(cell.foreground, color.fg);
    }
    let b = "hi".with_background(BgColor(Color::Named(NamedColor::Red)));
    assert_eq!(b.0[1].background, BgColor(Color::Named(NamedColor::Red)));
    assert_eq!(b.0[1].foreground, FgColor(Color::Default));
    let f = String::from("hi").with_foreground(FgColor(Color::Named(NamedColor::Green)));
    assert_eq!(f.0[0].foreground, FgColor(Color::Named(NamedColor::Green)));
}

#[test]
fn text_with_styles() {
    let c = "ab".with_style(Style::Bold).with_style(Style::Italic);
    assert!(c.0[0].styles.bold && c.0[0].styles.italic);
    let d = IntoCharxels::with_styles(c, &[Style::Underline]);
    assert!(!d.0[1].styles.bold && d.0[1].styles.underline);
}

#[test]
fn cells_convert_to_themselves() {
    let c = "abc".into_charxels();
    let d = IntoCharxels::into_charxels(c.clone());
    assert_eq!(graphemes(&d), vec!["a", "b", "c"]);
}
