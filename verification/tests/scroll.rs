use aparte::layout::{Dimensions, RequestedDimension};
use aparte::scroll::{child_heights, ScrollState};

/// A window state after `n` children were inserted one by one.
fn with_children(n: usize) -> ScrollState {
    let mut s = ScrollState::new();
    for len in 0..n {
        s.inserted(len, true);
    }
    s
}

fn dims(top: u16, left: u16, width: u16, height: u16) -> Dimensions {
    Dimensions { top, left, width, height }
}

/// Indices of the visible children, from the bottom one up.
fn visible(s: &ScrollState, d: &Dimensions, hs: &[u16]) -> Vec<usize> {
    let count = s.visible_children_count(d, hs);
    let bottom = s.bottom_visible_child_index.min(hs.len().saturating_sub(1));
    (0..count).map(|k| bottom - k).collect()
}

#[test]
fn test_visible_children() {
    let hs = [10u16, 10, 10];
    let mut s = with_children(3);
    let d = dims(1, 1, 100, 20);
    s.layout(d, &hs);
    assert_eq!(visible(&s, &d, &hs), vec![2, 1]);
}

#[test]
fn test_visible_children_page_down() {
    let hs = [10u16; 4];
    let mut s = with_children(4);
    let d = dims(1, 1, 100, 20);
    s.layout(d, &hs);
    s.page_up(&hs);
    s.page_down(&hs);
    assert_eq!(visible(&s, &d, &hs), vec![3, 2]);
}

#[test]
fn test_visible_children_page_up() {
    let hs = [10u16; 4];
    let mut s = with_children(4);
    let d = dims(1, 1, 100, 20);
    s.layout(d, &hs);
    s.page_up(&hs);
    assert_eq!(visible(&s, &d, &hs), vec![1, 0]);
}

#[test]
fn test_visible_children_page_up_then_down_unaligned() {
    let mut s = with_children(4);
    let d = dims(1, 1, 100, 20);
    s.layout(d, &[10; 4]);
    s.page_up(&[10; 4]);
    assert_eq!(visible(&s, &d, &[10; 4]), vec![1, 0]);
    s.inserted(4, true);
    s.page_down(&[10; 5]);
    assert_eq!(visible(&s, &d, &[10; 5]), vec![3, 2]);
    s.page_down(&[10; 5]);
    assert_eq!(visible(&s, &d, &[10; 5]), vec![4, 3]);
}

#[test]
fn test_layout_children_at_top_if_they_dont_fill_it() {
    let mut s = with_children(1);
    let plan = s.layout(dims(1, 1, 100, 20), &[10]);
    assert_eq!(plan.len(), 1);
    assert_eq!(plan[0].0, 0);
    assert_eq!(plan[0].1.top, 1);
}

#[test]
fn test_layout_children_respecting_order() {
    let mut s = with_children(3);
    let plan = s.layout(dims(1, 1, 100, 20), &[10, 10, 10]);
    assert_eq!(plan.len(), 2);
    assert_eq!((plan[0].0, plan[0].1.top), (2, 11));
    assert_eq!((plan[1].0, plan[1].1.top), (1, 1));
}

#[test]
fn test_layout_without_children() {
    let mut s = ScrollState::new();
    let plan = s.layout(dims(1, 1, 100, 20), &[]);
    assert!(plan.is_empty());
    assert_eq!(s.dimensions, Some(dims(1, 1, 100, 20)));
}

#[test]
fn test_layout_partial_child() {
    let mut s = with_children(3);
    let plan = s.layout(dims(1, 1, 100, 30), &[20, 10, 10]);
    assert_eq!(plan.len(), 3);
    assert_eq!((plan[0].0, plan[0].1.top), (2, 21));
    assert_eq!((plan[1].0, plan[1].1.top), (1, 11));
    assert_eq!((plan[2].0, plan[2].1.top, plan[2].1.height), (0, 1, 10));
}

#[test]
fn test_layout_page_up_near_top() {
    let hs = [4u16; 4];
    let mut s = with_children(4);
    let d = dims(1, 1, 100, 10);
    s.layout(d, &hs);
    s.page_up(&hs);
    s.layout(d, &hs);
    s.page_up(&hs);
    let plan = s.layout(d, &hs);
    let top_child = plan.iter().min_by_key(|(i, _)| *i).unwrap();
    assert_eq!(top_child.1.top, d.top, "first message should be flush with top of window");
}

#[test]
fn test_layout_page_up_to_index_zero_shows_multiple_children() {
    let hs = [3u16; 10];
    let mut s = with_children(10);
    let d = dims(0, 0, 100, 10);
    let mut plan = s.layout(d, &hs);
    for _ in 0..10 {
        let (at_top, _, _) = s.page_up(&hs);
        plan = s.layout(d, &hs);
        if at_top {
            break;
        }
    }
    let top_child = plan.iter().min_by_key(|(i, _)| *i).unwrap();
    assert_eq!(top_child.1.top, d.top);
    assert!(plan.len() > 1, "multiple children should be visible at the top");
}

fn three_child_state() -> ScrollState {
    let mut s = with_children(3);
    s.layout(dims(0, 0, 80, 30), &[10, 10, 10]);
    s
}

#[test]
fn test_select_prev_initialises_at_bottom() {
    let mut s = three_child_state();
    let (old, new, _at_top) = s.select_prev();
    assert_eq!(old, None);
    assert_eq!(new, Some(s.bottom_visible_child_index));
}

#[test]
fn test_select_next_initialises_at_bottom() {
    let mut s = three_child_state();
    let (old, new) = s.select_next(3);
    assert_eq!(old, None);
    assert_eq!(new, Some(s.bottom_visible_child_index));
}

#[test]
fn test_select_prev_moves_up() {
    let mut s = three_child_state();
    s.select_prev();
    let (old, new, at_top) = s.select_prev();
    assert_eq!(old, Some(2));
    assert_eq!(new, Some(1));
    assert!(!at_top);
}

#[test]
fn test_select_next_moves_down() {
    let mut s = three_child_state();
    s.select_prev();
    s.select_prev();
    let (old, new) = s.select_next(3);
    assert_eq!(old, Some(1));
    assert_eq!(new, Some(2));
}

#[test]
fn test_select_prev_clamped_at_zero() {
    let mut s = three_child_state();
    s.select_prev();
    s.select_prev();
    s.select_prev();
    let (old, new, at_top) = s.select_prev();
    assert_eq!(old, Some(0));
    assert_eq!(new, Some(0));
    assert!(at_top);
}

#[test]
fn test_select_next_clamped_at_last() {
    let mut s = three_child_state();
    s.select_next(3);
    let (old, new) = s.select_next(3);
    assert_eq!(old, Some(2));
    assert_eq!(new, Some(2));
}

#[test]
fn test_clear_selection_returns_index() {
    let mut s = three_child_state();
    s.select_prev();
    s.select_prev();
    assert_eq!(s.clear_selection(), Some(1));
    let (old, new, _) = s.select_prev();
    assert_eq!(old, None);
    assert_eq!(new, Some(s.bottom_visible_child_index));
}

#[test]
fn test_select_prev_scrolls_viewport_up() {
    let mut s = with_children(4);
    s.layout(dims(0, 0, 80, 20), &[10; 4]);
    assert_eq!(s.bottom_visible_child_index, 3);
    assert_eq!(s.first_visible_child_index, 2);
    s.select_prev();
    s.select_prev();
    assert_eq!(s.bottom_visible_child_index, 3);
    s.select_prev();
    assert_eq!(s.bottom_visible_child_index, 2);
}

#[test]
fn test_select_last_visible_tracks_bottom_on_sequential_inserts() {
    let mut s = ScrollState::new();
    for len in 0..5 {
        s.inserted(len, true);
        let (_, new) = s.select_last_visible(len + 1);
        assert_eq!(new, Some(s.bottom_visible_child_index));
    }
}

#[test]
fn test_bottom_visible_decreases_after_page_up() {
    let mut s = with_children(5);
    s.layout(dims(0, 0, 80, 20), &[10; 5]);
    s.select_last_visible(5);
    assert_eq!(s.bottom_visible_child_index, 4);
    s.page_up(&[10; 5]);
    assert!(s.bottom_visible_child_index < 4);
}

#[test]
fn page_up_keeps_selection_in_view() {
    let mut s = with_children(5);
    s.layout(dims(0, 0, 80, 20), &[10; 5]);
    s.select_last_visible(5);
    let (at_top, old, new) = s.page_up(&[10; 5]);
    assert!(!at_top);
    assert_eq!(old, Some(4));
    assert_eq!(new, Some(s.bottom_visible_child_index));
}

#[test]
fn page_up_when_everything_fits_changes_nothing() {
    let mut s = with_children(2);
    s.layout(dims(0, 0, 80, 30), &[10, 10]);
    let (at_top, old, new) = s.page_up(&[10, 10]);
    assert!(at_top);
    assert_eq!((old, new), (None, None));
    assert_eq!(s.bottom_visible_child_index, 1);
}

#[test]
fn scroll_to_top_and_bottom() {
    let mut s = with_children(6);
    s.layout(dims(0, 0, 80, 20), &[10; 6]);
    assert_eq!(s.scroll_to_top(&[10; 6]), (None, Some(0)));
    assert_eq!(s.bottom_visible_child_index, 1);
    assert_eq!(s.scroll_to_bottom(6), (Some(0), Some(5)));
    assert_eq!(s.bottom_visible_child_index, 5);
}

#[test]
fn removal_keeps_indices_on_the_same_children() {
    let mut s = with_children(5);
    s.select_prev();
    s.select_prev();
    assert_eq!(s.selected_child_index, Some(3));
    s.removed(1, 4);
    assert_eq!(s.bottom_visible_child_index, 3);
    assert_eq!(s.selected_child_index, Some(2));
    s.removed(2, 3);
    assert_eq!(s.selected_child_index, None);
}

#[test]
fn replacing_an_existing_child_does_not_scroll() {
    let mut s = with_children(3);
    s.replaced(3, true, true);
    assert_eq!(s.bottom_visible_child_index, 2);
    s.replaced(3, false, true);
    assert_eq!(s.bottom_visible_child_index, 3);
}

#[test]
fn test_search_first_finds_match() {
    let mut s = with_children(4);
    let (old, new) = s.set_search("b".to_string(), &[false, true, false, false]);
    assert_eq!(old, None);
    assert_eq!(new, Some(1));
    assert_eq!(s.current_search(), Some("b"));
}

#[test]
fn test_search_no_match_returns_same() {
    let mut s = with_children(3);
    let (old, new) = s.set_search("z".to_string(), &[false, false, false]);
    assert_eq!(old, None);
    assert_eq!(new, None);
}

#[test]
fn test_search_next_wraps() {
    let mut s = with_children(4);
    let m = [true, false, true, false];
    s.set_search("x".to_string(), &m);
    assert_eq!(s.selected_child_index, Some(2));
    s.search_next(&m);
    assert_eq!(s.selected_child_index, Some(0));
    s.search_next(&m);
    assert_eq!(s.selected_child_index, Some(2));
}

#[test]
fn test_search_prev_direction() {
    let mut s = with_children(4);
    let m = [true, false, true, true];
    s.set_search("x".to_string(), &m);
    assert_eq!(s.selected_child_index, Some(2));
    s.search_prev(&m);
    assert_eq!(s.selected_child_index, Some(3));
}

#[test]
fn test_clear_search_disables_next() {
    let mut s = with_children(3);
    let m = [true, true, true];
    s.set_search("x".to_string(), &m);
    let sel = s.selected_child_index;
    s.clear_search();
    assert_eq!(s.search_next(&m), (sel, sel));
    assert_eq!(s.current_search(), None);
}

#[test]
fn position_memory_restores_selection_after_blur_and_focus() {
    let mut s = with_children(3).with_position_memory();
    // After 3 inserts the bottom is the last child; the first call anchors
    // the selection there, the second moves it up.
    s.select_prev();
    s.select_prev();
    assert_eq!(s.selected_child_index, Some(1));
    s.on_focus_change(false);
    // The window's blur handler clears the selection.
    s.clear_selection();
    assert!(!s.has_selection());
    s.on_focus_change(true);
    assert_eq!(s.selected_child_index, Some(1));
}

#[test]
fn position_memory_selects_top_on_first_focus_with_no_remembered_position() {
    let mut s = with_children(3).with_position_memory();
    s.on_focus_change(true);
    assert_eq!(s.selected_child_index, Some(0));
}

#[test]
fn test_selected_returns_none_when_no_selection() {
    let s = with_children(3);
    assert_eq!(s.selected_child_index, None);
}

#[test]
fn test_selected_returns_current_child() {
    let mut s = with_children(5);
    s.layout(dims(0, 0, 100, 50), &[5, 5, 5, 5, 5]);
    s.select_last_visible(5);
    assert_eq!(s.selected_child_index, Some(4));
}

#[test]
fn child_heights_resolve_expanding_requests() {
    let hs = child_heights(&[RequestedDimension::Absolute(3), RequestedDimension::ExpandMax], 7);
    assert_eq!(hs, vec![3, 7]);
}
