use aparte::dimension::DimensionSpec;
use aparte::layout::LayoutParam;
use aparte::list_view::{measure_list, render_lines, ListGroup};

fn roster() -> Vec<ListGroup> {
    vec![
        ListGroup { label: Some("Friends".to_string()), items: vec!["alice".to_string(), "bob".to_string()] },
        ListGroup { label: None, items: vec!["zed".to_string()] },
    ]
}

#[test]
fn list_wraps_its_lines() {
    let mut spec = DimensionSpec { width: None, height: None };
    measure_list(LayoutParam::WrapContent, LayoutParam::WrapContent, &mut spec, &roster());
    assert_eq!(spec, DimensionSpec { width: Some(7), height: Some(4) });
}

#[test]
fn list_wrap_is_capped_by_constraint() {
    let mut spec = DimensionSpec { width: Some(5), height: Some(10) };
    measure_list(LayoutParam::WrapContent, LayoutParam::WrapContent, &mut spec, &roster());
    assert_eq!(spec, DimensionSpec { width: Some(5), height: Some(4) });
}

#[test]
fn list_fixed_and_filling_sides() {
    let mut spec = DimensionSpec { width: Some(10), height: None };
    measure_list(LayoutParam::Absolute(3), LayoutParam::MatchParent, &mut spec, &roster());
    assert_eq!(spec, DimensionSpec { width: Some(3), height: None });
}

#[test]
fn list_width_ignores_escape_sequences() {
    let groups = vec![ListGroup { label: None, items: vec!["\x1b[32mab\x1b[0m".to_string()] }];
    let mut spec = DimensionSpec { width: None, height: None };
    measure_list(LayoutParam::WrapContent, LayoutParam::WrapContent, &mut spec, &groups);
    assert_eq!(spec, DimensionSpec { width: Some(2), height: Some(1) });
}

#[test]
fn list_rows_indent_items_under_heading() {
    let rows = render_lines(&roster(), 20, 10).unwrap();
    assert_eq!(rows, vec!["Friends", "  alice", "  bob", "zed"]);
}

#[test]
fn list_rows_are_cut_with_ellipsis() {
    let rows = render_lines(&roster(), 6, 1).unwrap();
    assert_eq!(rows, vec!["Frien…", "  ali…"]);
}

#[test]
fn list_draws_one_row_below_height() {
    let rows = render_lines(&roster(), 20, 0).unwrap();
    assert_eq!(rows, vec!["Friends"]);
    let rows = render_lines(&roster(), 20, 2).unwrap();
    assert_eq!(rows.len(), 3);
}

#[test]
fn list_too_narrow_to_cut() {
    assert!(render_lines(&roster(), 1, 5).is_none());
    assert!(render_lines(&roster(), 0, 5).is_none());
    let empty: Vec<ListGroup> = Vec::new();
    assert_eq!(render_lines(&empty, 0, 5).unwrap().len(), 0);
}
