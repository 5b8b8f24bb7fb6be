use aparte::dimension::{
    apply_constraints, is_layout_dirty, layout_bounds, measure_with_layout, ChildMeasure, DimensionSpec, LinearMeasure,
    ResolvedConstraint, ResolvedConstraints,
};
use aparte::layout::{LayoutParam, LayoutParams, Orientation};

fn constraints(min: Option<ResolvedConstraint>, max: Option<ResolvedConstraint>) -> ResolvedConstraints {
    ResolvedConstraints { max, min }
}

#[test]
fn constraints_raise_to_minimum() {
    let c = constraints(Some(ResolvedConstraint::Absolute(8)), None);
    assert_eq!(apply_constraints(5, Some(10), &c), 8);
    assert_eq!(apply_constraints(5, None, &c), 8);
}

#[test]
fn constraints_cap_by_parent() {
    let none = constraints(None, None);
    assert_eq!(apply_constraints(30, Some(10), &none), 10);
    assert_eq!(apply_constraints(30, None, &none), 30);
    let max = constraints(None, Some(ResolvedConstraint::Absolute(20)));
    assert_eq!(apply_constraints(30, Some(10), &max), 10);
    assert_eq!(apply_constraints(30, None, &max), 20);
}

#[test]
fn constraints_share_is_not_capped() {
    let share = constraints(None, Some(ResolvedConstraint::Share(12)));
    assert_eq!(apply_constraints(30, Some(10), &share), 12);
    assert_eq!(apply_constraints(5, Some(10), &share), 5);
}

#[test]
fn constraints_maximum_wins_over_minimum() {
    let c = constraints(Some(ResolvedConstraint::Share(15)), Some(ResolvedConstraint::Absolute(9)));
    assert_eq!(apply_constraints(3, Some(40), &c), 9);
}

fn child(width: Option<u16>, height: Option<u16>) -> ChildMeasure {
    ChildMeasure { measured: DimensionSpec { width, height }, width_wrap: None, height_wrap: None }
}

fn fill() -> LayoutParams {
    LayoutParams { width: LayoutParam::MatchParent, height: LayoutParam::MatchParent }
}

#[test]
fn vertical_layout_shares_free_height() {
    let bounds = layout_bounds(&fill(), Some(80), Some(24));
    assert_eq!(bounds, (Some(80), Some(24)));
    let bar = LayoutParams { width: LayoutParam::MatchParent, height: LayoutParam::Absolute(1) };
    let firsts = vec![child(None, Some(1)), child(None, None), child(None, Some(1))];
    let mut m = LinearMeasure::new(Orientation::Vertical, bounds, &firsts).unwrap();
    assert_eq!(m.split_height, Some(22));
    assert_eq!(m.split_width, Some(80));
    let layouts = [bar, fill(), bar];
    let mut sizes = Vec::new();
    for (first, layout) in firsts.iter().zip(layouts.iter()) {
        let mut spec = m.child_specs(&first.measured).unwrap();
        measure_with_layout(layout, &mut spec);
        assert!(m.add_child(&spec));
        sizes.push(spec);
    }
    assert_eq!(sizes[0], DimensionSpec { width: Some(80), height: Some(1) });
    assert_eq!(sizes[1], DimensionSpec { width: Some(80), height: Some(22) });
    assert_eq!(sizes[2], DimensionSpec { width: Some(80), height: Some(1) });
    assert_eq!(m.measured(), DimensionSpec { width: Some(80), height: Some(24) });
}

#[test]
fn horizontal_layout_splits_free_width() {
    let bounds = layout_bounds(&fill(), Some(30), Some(5));
    let firsts = vec![child(Some(10), None), child(None, None), child(None, None)];
    let mut m = LinearMeasure::new(Orientation::Horizontal, bounds, &firsts).unwrap();
    assert_eq!(m.split_width, Some(10));
    assert_eq!(m.split_height, Some(5));
    for first in firsts.iter() {
        let spec = m.child_specs(&first.measured).unwrap();
        assert_eq!(spec.width, Some(10));
        assert!(m.add_child(&spec));
    }
    assert_eq!(m.measured(), DimensionSpec { width: Some(30), height: Some(5) });
}

#[test]
fn wrapping_child_is_bounded_by_layout() {
    let bounds = layout_bounds(
        &LayoutParams { width: LayoutParam::Absolute(20), height: LayoutParam::MatchParent },
        Some(50),
        None,
    );
    assert_eq!(bounds, (Some(20), None));
    let wrap = ChildMeasure {
        measured: DimensionSpec { width: Some(35), height: Some(3) },
        width_wrap: Some(constraints(None, None)),
        height_wrap: None,
    };
    let m = LinearMeasure::new(Orientation::Vertical, bounds, &vec![wrap]).unwrap();
    assert_eq!(m.split_width, Some(20));
    assert_eq!(m.split_height, Some(0));
}

#[test]
fn children_too_large_for_bound() {
    let bounds = (Some(40), Some(30));
    let firsts = vec![child(None, Some(20)), child(None, Some(20))];
    assert!(LinearMeasure::new(Orientation::Vertical, bounds, &firsts).is_none());
    let wide = vec![child(Some(50), None)];
    assert!(LinearMeasure::new(Orientation::Vertical, bounds, &wide).is_none());
}

#[test]
fn measure_past_bound_offers_nothing() {
    let mut m = LinearMeasure::new(Orientation::Vertical, (Some(10), Some(4)), &vec![]).unwrap();
    assert!(m.add_child(&DimensionSpec { width: Some(3), height: Some(6) }));
    assert!(m.child_specs(&DimensionSpec { width: None, height: None }).is_none());
    assert!(!m.add_child(&DimensionSpec { width: None, height: Some(u16::MAX) }));
    assert_eq!(m.measured(), DimensionSpec { width: Some(3), height: Some(6) });
}

#[test]
fn wrapping_views_relayout_when_dirty() {
    let wrap_w = LayoutParams { width: LayoutParam::WrapContent, height: LayoutParam::MatchParent };
    let wrap_h = LayoutParams { width: LayoutParam::Absolute(3), height: LayoutParam::WrapContent };
    assert!(is_layout_dirty(&wrap_w, true));
    assert!(is_layout_dirty(&wrap_h, true));
    assert!(!is_layout_dirty(&wrap_w, false));
    assert!(!is_layout_dirty(&fill(), true));
}

#[test]
fn dimension_before_layout() {
    let d = aparte::dimension::Dimension::new();
    assert_eq!((d.x, d.y, d.width, d.height), (1, 1, 0, 0));
}
