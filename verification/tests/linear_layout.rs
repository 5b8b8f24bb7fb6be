use aparte::layout::{Dimensions, Orientation, RequestedDimension, RequestedDimensions};
use aparte::linear_layout::{layout_children, ChildRequest};

fn child(width: RequestedDimension, height: RequestedDimension, weight: u16) -> ChildRequest {
    ChildRequest { requested: RequestedDimensions { width, height }, weight }
}

const EXPAND: RequestedDimension = RequestedDimension::ExpandMax;

#[test]
fn linear_layout_test_vertical_layout_children_evenly() {
    let children = vec![child(EXPAND, EXPAND, 1), child(EXPAND, EXPAND, 1)];
    let dims = layout_children(
        Orientation::Vertical,
        &Dimensions { top: 0, left: 0, width: 100, height: 100 },
        &children,
    );
    assert_eq!(dims[0], Dimensions { top: 0, left: 0, width: 100, height: 50 });
    assert_eq!(dims[1], Dimensions { top: 50, left: 0, width: 100, height: 50 });
}

#[test]
fn linear_layout_test_vertical_layout_free_space_respecting_weight() {
    let children = vec![
        child(EXPAND, EXPAND, 1),
        child(EXPAND, EXPAND, 2),
        child(EXPAND, RequestedDimension::Absolute(40), 1),
    ];
    let dims = layout_children(
        Orientation::Vertical,
        &Dimensions { top: 0, left: 0, width: 100, height: 100 },
        &children,
    );
    assert_eq!(dims[0], Dimensions { top: 0, left: 0, width: 100, height: 20 });
    assert_eq!(dims[1], Dimensions { top: 20, left: 0, width: 100, height: 40 });
    assert_eq!(dims[2], Dimensions { top: 60, left: 0, width: 100, height: 40 });
}

#[test]
fn linear_layout_test_horizontal_layout_children_evenly() {
    let children = vec![child(EXPAND, EXPAND, 1), child(EXPAND, EXPAND, 1)];
    let dims = layout_children(
        Orientation::Horizontal,
        &Dimensions { top: 0, left: 0, width: 100, height: 100 },
        &children,
    );
    assert_eq!(dims[0], Dimensions { top: 0, left: 0, height: 100, width: 50 });
    assert_eq!(dims[1], Dimensions { top: 0, left: 50, height: 100, width: 50 });
}

#[test]
fn linear_layout_test_horizontal_layout_free_space_respecting_weight() {
    let children = vec![
        child(EXPAND, EXPAND, 1),
        child(EXPAND, EXPAND, 2),
        child(RequestedDimension::Absolute(40), EXPAND, 1),
    ];
    let dims = layout_children(
        Orientation::Horizontal,
        &Dimensions { top: 0, left: 0, width: 100, height: 200 },
        &children,
    );
    assert_eq!(dims[0], Dimensions { top: 0, left: 0, width: 20, height: 200 });
    assert_eq!(dims[1], Dimensions { top: 0, left: 20, width: 40, height: 200 });
    assert_eq!(dims[2], Dimensions { top: 0, left: 60, width: 40, height: 200 });
}
