use aparte::completion::{complete_words, current_word, filter_by_prefix, CompletionPlugin};
use aparte::dimension::{measure_with_layout, Dimension, DimensionSpec};
use aparte::disco::Disco;
use aparte::layout::{LayoutParam, LayoutParams};
use aparte::winbar::{BarSegment, TitleBar, WinBar};

fn texts(segs: &[BarSegment]) -> Vec<(String, bool)> {
    segs.iter().map(|s| (s.text.clone(), s.bold)).collect()
}

#[test]
fn title_bar_shows_window_name() {
    let mut t = TitleBar::new();
    assert!(t.segments().is_empty());
    t.set_name("alice@example.org");
    assert_eq!(texts(&t.segments()), vec![(" alice@example.org".to_string(), false)]);
}

#[test]
fn win_bar_lists_current_and_highlighted_windows() {
    let mut b = WinBar::new();
    b.set_connection("me@example.org");
    b.add_window("a");
    b.add_window("b");
    b.set_current_window("a");
    b.on_message("b");
    b.on_message("a");
    b.on_message("unknown");
    assert_eq!(b.highlighted, vec!["b".to_string()]);
    assert_eq!(
        texts(&b.segments(80)),
        vec![
            (" me@example.org".to_string(), false),
            (" [".to_string(), false),
            ("a".to_string(), true),
            ("]".to_string(), false),
            (" [".to_string(), false),
            ("b".to_string(), true),
            ("]".to_string(), false),
        ]
    );
}

#[test]
fn win_bar_cuts_highlighted_list_that_does_not_fit() {
    let mut b = WinBar::new();
    b.highlight_window("first");
    b.highlight_window("second");
    b.highlight_window("first");
    assert_eq!(b.highlighted.len(), 2);
    // " []" takes 3 bytes, " [first" 8 more: "second" no longer fits in 20.
    assert_eq!(
        texts(&b.segments(20)),
        vec![
            (" []".to_string(), false),
            (" [".to_string(), false),
            ("first".to_string(), true),
            (", …".to_string(), false),
            ("]".to_string(), false),
        ]
    );
    assert_eq!(texts(&b.segments(5)), vec![(" []".to_string(), false)]);
}

#[test]
fn win_bar_current_window_clears_its_highlight() {
    let mut b = WinBar::new();
    b.highlight_window("x");
    b.highlight_window("y");
    b.set_current_window("x");
    assert_eq!(b.highlighted, vec!["y".to_string()]);
    assert_eq!(b.current_window.as_deref(), Some("x"));
}

#[test]
fn completion_candidates_and_rotation() {
    let nicks = vec!["alice".to_string(), "bob".to_string(), "albert".to_string()];
    let word = current_word("hello al", 8);
    assert_eq!(word, "al");
    let candidates = filter_by_prefix(&nicks, &word);
    assert_eq!(candidates, vec!["alice".to_string(), "albert".to_string()]);
    let mut c = CompletionPlugin::new();
    assert_eq!(c.next_completion(), None);
    c.set_completions(candidates);
    assert_eq!(c.next_completion(), Some("alice".to_string()));
    assert_eq!(c.next_completion(), Some("albert".to_string()));
    assert_eq!(c.next_completion(), Some("alice".to_string()));
    c.reset_completion();
    assert!(c.completions.is_none());
    assert_eq!(c.current_completion, 0);
}

#[test]
fn completion_replaces_word_under_cursor() {
    assert_eq!(complete_words("hello al", 8, "alice"), "hello alice");
    assert_eq!(complete_words("al hello", 1, "alice"), "alicehello");
    assert_eq!(complete_words("", 0, "alice"), "");
}

#[test]
fn disco_features() {
    let mut d = Disco::new();
    assert_eq!(d.add_feature("urn:xmpp:mam:2"), Ok(()));
    assert_eq!(d.client_features, vec!["urn:xmpp:mam:2".to_string()]);
    assert!(!d.has_feature("urn:xmpp:carbons:2"));
    d.add_server_features(vec!["urn:xmpp:carbons:2".to_string()]);
    assert!(d.has_feature("urn:xmpp:carbons:2"));
}

#[test]
fn dimension_spec_layout_and_measure() {
    let spec = DimensionSpec { width: Some(10), height: Some(3) };
    assert_eq!(spec.layout(2, 5), Dimension { x: 2, y: 5, width: 10, height: 3 });
    let mut s = DimensionSpec { width: Some(10), height: None };
    measure_with_layout(
        &LayoutParams { width: LayoutParam::Absolute(20), height: LayoutParam::Absolute(1) },
        &mut s,
    );
    assert_eq!(s, DimensionSpec { width: Some(10), height: Some(1) });
    let mut s = DimensionSpec { width: Some(10), height: None };
    measure_with_layout(
        &LayoutParams { width: LayoutParam::MatchParent, height: LayoutParam::MatchParent },
        &mut s,
    );
    assert_eq!(s, DimensionSpec { width: Some(10), height: None });
}
