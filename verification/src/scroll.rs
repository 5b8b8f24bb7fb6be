//! The scrolling and selection state of a vertical window of ordered
//! children: which child is at the bottom of the view, which is at the top,
//! which is selected, and how paging, searching and laying out move them.
//! The children themselves are counted and measured by the caller, which
//! hands over their number, their requested heights and which of them match
//! a search.

use vstd::prelude::*;
use crate::layout::{Dimensions, RequestedDimension};

verus! {

/// Children of a scroll window that a search can find.
pub trait Searchable {
    fn matches(&self, query: &str) -> bool;
}


/// The height a child gets from its request in a view `h` rows tall.
pub open spec fn resolve_height(r: RequestedDimension, h: u16) -> u16 {
    match r {
        RequestedDimension::ExpandMax => h,
        RequestedDimension::Absolute(x) => x,
    }
}

/// The heights of the children.
pub open spec fn resolved(rs: Seq<RequestedDimension>, h: u16) -> Seq<u16> {
    rs.map_values(|r: RequestedDimension| resolve_height(r, h))
}

/// The total of the heights.
pub open spec fn hsum(hs: Seq<u16>) -> int
    decreases hs.len(),
{
    if hs.len() == 0 {
        0
    } else {
        hsum(hs.drop_last()) + hs.last()
    }
}

/// Going up from child `b`, with `remaining` rows left: how many children
/// fit before one does not (`None` when all of `0..=b` fit).
pub open spec fn scan_up(hs: Seq<u16>, b: int, remaining: int, i: int) -> Option<int>
    decreases b + 1 - i,
{
    if i < 0 || i > b {
        None
    } else if hs[b - i] > remaining {
        Some(i)
    } else {
        scan_up(hs, b, remaining - hs[b - i], i + 1)
    }
}

/// Going down from child `b`, with `remaining` rows left: how many children
/// fit before one does not (`None` when all of `b..` fit).
pub open spec fn scan_down(hs: Seq<u16>, b: int, remaining: int, i: int) -> Option<int>
    decreases hs.len() - (b + i),
{
    if i < 0 || b + i >= hs.len() {
        None
    } else if hs[b + i] > remaining {
        Some(i)
    } else {
        scan_down(hs, b, remaining - hs[b + i], i + 1)
    }
}

pub proof fn lemma_scan_up_range(hs: Seq<u16>, b: int, remaining: int, i: int)
    ensures
        scan_up(hs, b, remaining, i) matches Some(k) ==> i <= k <= b,
    decreases b + 1 - i,
{
    if !(i < 0 || i > b) && hs[b - i] <= remaining {
        lemma_scan_up_range(hs, b, remaining - hs[b - i], i + 1);
    }
}

pub proof fn lemma_scan_down_range(hs: Seq<u16>, b: int, remaining: int, i: int)
    ensures
        scan_down(hs, b, remaining, i) matches Some(k) ==> i <= k && b + k < hs.len(),
    decreases hs.len() - (b + i),
{
    if !(i < 0 || b + i >= hs.len()) && hs[b + i] <= remaining {
        lemma_scan_down_range(hs, b, remaining - hs[b + i], i + 1);
    }
}

/// From the first child down, with `remaining` rows left: how many children
/// fit entirely.
pub open spec fn fit_from_top(hs: Seq<u16>, remaining: int, i: int) -> int
    decreases hs.len() - i,
{
    if i < 0 || i >= hs.len() {
        0
    } else if hs[i] > remaining {
        0
    } else {
        1 + fit_from_top(hs, remaining - hs[i], i + 1)
    }
}

/// Going up from child `end - 1`, with `remaining` rows left: how many
/// children are at least partly visible.
pub open spec fn shown_up(hs: Seq<u16>, end: int, remaining: int, i: int) -> int
    decreases end - i,
{
    if i < 0 || i >= end {
        0
    } else if remaining <= 0 {
        0
    } else {
        let h = hs[end - 1 - i] as int;
        1 + shown_up(hs, end, remaining - (if h < remaining {
            h
        } else {
            remaining
        }), i + 1)
    }
}

pub proof fn lemma_fit_from_top_bound(hs: Seq<u16>, remaining: int, i: int)
    requires
        0 <= i <= hs.len(),
    ensures
        0 <= fit_from_top(hs, remaining, i) <= hs.len() - i,
    decreases hs.len() - i,
{
    if i < hs.len() && hs[i] <= remaining {
        lemma_fit_from_top_bound(hs, remaining - hs[i], i + 1);
    }
}

pub proof fn lemma_shown_up_bound(hs: Seq<u16>, end: int, remaining: int, i: int)
    requires
        0 <= i <= end,
    ensures
        0 <= shown_up(hs, end, remaining, i) <= end - i,
    decreases end - i,
{
    if i < end && remaining > 0 {
        let h = hs[end - 1 - i] as int;
        lemma_shown_up_bound(hs, end, remaining - (if h < remaining {
            h
        } else {
            remaining
        }), i + 1);
    }
}

/// Going down from child `0` with `acc` rows already used: the first child
/// at which `target` rows are reached, or the last child.
pub open spec fn reach_at(hs: Seq<u16>, target: int, acc: int, i: int) -> int
    decreases hs.len() - i,
{
    if i < 0 || i + 1 >= hs.len() {
        i
    } else if acc + hs[i] >= target {
        i
    } else {
        reach_at(hs, target, acc + hs[i], i + 1)
    }
}

pub proof fn lemma_reach_at_bound(hs: Seq<u16>, target: int, acc: int, i: int)
    requires
        0 <= i < hs.len(),
    ensures
        i <= reach_at(hs, target, acc, i) < hs.len(),
    decreases hs.len() - i,
{
    if i + 1 < hs.len() && acc + hs[i] < target {
        lemma_reach_at_bound(hs, target, acc + hs[i], i + 1);
    }
}

/// The area of each child laid out from the bottom of a view: child
/// `last - k` for `k < count`, each clipped to the rows left above the one
/// below it, from row `bottom` up.
pub open spec fn layout_up(
    hs: Seq<u16>,
    last: int,
    count: int,
    bottom: int,
    avail: int,
    d: Dimensions,
) -> Seq<(usize, Dimensions)>
    decreases count,
{
    if count <= 0 {
        Seq::empty()
    } else {
        let h = hs[last] as int;
        let a = if h < avail {
            h
        } else {
            avail
        };
        seq![
            (
                last as usize,
                Dimensions { top: (bottom - a) as u16, left: d.left, width: d.width, height: a as u16 },
            ),
        ] + layout_up(hs, last - 1, count - 1, bottom - a, avail - a, d)
    }
}

/// The area of each of the first `count` children laid out from the top of
/// a view, from row `top` down, each at its full height.
pub open spec fn layout_down(hs: Seq<u16>, first: int, count: int, top: int, d: Dimensions) -> Seq<
    (usize, Dimensions),
>
    decreases count,
{
    if count <= 0 {
        Seq::empty()
    } else {
        seq![
            (
                first as usize,
                Dimensions { top: top as u16, left: d.left, width: d.width, height: hs[first] },
            ),
        ] + layout_down(hs, first + 1, count - 1, top + hs[first], d)
    }
}

/// The first index of `order` whose child matches.
pub open spec fn first_match(order: Seq<int>, matches: Seq<bool>) -> Option<int>
    decreases order.len(),
{
    if order.len() == 0 {
        None
    } else if matches[order[0]] {
        Some(order[0])
    } else {
        first_match(order.drop_first(), matches)
    }
}

/// The indices as integers.
pub open spec fn as_ints(v: Seq<usize>) -> Seq<int> {
    v.map_values(|x: usize| x as int)
}

/// Indices `hi - 1` down to `lo`.
pub open spec fn down_from(hi: int, lo: int) -> Seq<int> {
    Seq::new(if hi > lo {
        (hi - lo) as nat
    } else {
        0
    }, |k: int| hi - 1 - k)
}

/// Indices `lo` up to `hi - 1`.
pub open spec fn up_to(lo: int, hi: int) -> Seq<int> {
    Seq::new(if hi > lo {
        (hi - lo) as nat
    } else {
        0
    }, |k: int| lo + k)
}

/// Where a new search looks: upward from just above the anchor to the
/// first child, then from the last child down to the anchor.
pub open spec fn search_order(anchor: int, len: int) -> Seq<int> {
    down_from(anchor, 0) + down_from(len, anchor)
}

/// Where the next match is looked for: from the last child down to just
/// below the anchor, then from just above the anchor up to the first.
pub open spec fn next_order(anchor: int, len: int) -> Seq<int> {
    down_from(len, anchor + 1) + down_from(anchor, 0)
}

/// Where the previous match is looked for: from just below the anchor to
/// the last child, then from the first child to the anchor.
pub open spec fn prev_order(anchor: int, len: int) -> Seq<int> {
    up_to(anchor + 1, len) + up_to(0, anchor + 1)
}

/// The area `e` lies within `d`, across its whole width.
pub open spec fn inside(d: Dimensions, e: Dimensions) -> bool {
    &&& d.top <= e.top
    &&& e.top + e.height <= d.top + d.height
    &&& e.left == d.left
    &&& e.width == d.width
}

proof fn lemma_layout_up_inside(
    hs: Seq<u16>,
    last: int,
    count: int,
    bottom: int,
    avail: int,
    d: Dimensions,
)
    requires
        0 <= avail,
        bottom - avail == d.top,
        bottom <= d.top + d.height,
        d.top + d.height <= u16::MAX,
        count <= last + 1,
        last < hs.len(),
    ensures
        forall|k: int|
            0 <= k < layout_up(hs, last, count, bottom, avail, d).len() ==> inside(
                d,
                (#[trigger] layout_up(hs, last, count, bottom, avail, d)[k]).1,
            ),
    decreases count,
{
    if count > 0 {
        let h = hs[last] as int;
        let a = if h < avail {
            h
        } else {
            avail
        };
        lemma_layout_up_inside(hs, last - 1, count - 1, bottom - a, avail - a, d);
        let r = layout_up(hs, last, count, bottom, avail, d);
        let rest = layout_up(hs, last - 1, count - 1, bottom - a, avail - a, d);
        assert forall|k: int| 0 <= k < r.len() implies inside(d, (#[trigger] r[k]).1) by {
            if k > 0 {
                assert(r[k] == rest[k - 1]);
            }
        }
    }
}

proof fn lemma_layout_down_inside(hs: Seq<u16>, first: int, count: int, top: int, rem: int, d: Dimensions)
    requires
        0 <= first,
        0 <= rem,
        top + rem == d.top + d.height,
        d.top <= top,
        d.top + d.height <= u16::MAX,
        count <= fit_from_top(hs, rem, first),
    ensures
        forall|k: int|
            0 <= k < layout_down(hs, first, count, top, d).len() ==> inside(
                d,
                (#[trigger] layout_down(hs, first, count, top, d)[k]).1,
            ),
    decreases count,
{
    if count > 0 {
        let h = hs[first] as int;
        lemma_layout_down_inside(hs, first + 1, count - 1, top + h, rem - h, d);
        let r = layout_down(hs, first, count, top, d);
        let rest = layout_down(hs, first + 1, count - 1, top + h, d);
        assert forall|k: int| 0 <= k < r.len() implies inside(d, (#[trigger] r[k]).1) by {
            if k > 0 {
                assert(r[k] == rest[k - 1]);
            }
        }
    }
}

/// Laying out never places a child outside the window: from the bottom,
/// each shown child is clipped to the rows left; from the top, only the
/// children that fit entirely are placed.
pub proof fn lemma_layout_inside(hs: Seq<u16>, b: int, d: Dimensions)
    requires
        0 <= b < hs.len(),
        d.top + d.height <= u16::MAX,
    ensures
        forall|k: int|
            0 <= k < layout_up(hs, b, shown_up(hs, b + 1, d.height as int, 0), d.top + d.height, d.height as int, d).len()
                ==> inside(
                d,
                (#[trigger] layout_up(
                    hs,
                    b,
                    shown_up(hs, b + 1, d.height as int, 0),
                    d.top + d.height,
                    d.height as int,
                    d,
                )[k]).1,
            ),
        forall|k: int|
            0 <= k < layout_down(hs, 0, fit_from_top(hs, d.height as int, 0), d.top as int, d).len()
                ==> inside(
                d,
                (#[trigger] layout_down(hs, 0, fit_from_top(hs, d.height as int, 0), d.top as int, d)[k]).1,
            ),
{
    lemma_shown_up_bound(hs, b + 1, d.height as int, 0);
    lemma_layout_up_inside(
        hs,
        b,
        shown_up(hs, b + 1, d.height as int, 0),
        d.top + d.height,
        d.height as int,
        d,
    );
    lemma_layout_down_inside(hs, 0, fit_from_top(hs, d.height as int, 0), d.top as int, d.height as int, d);
}

/// A remembered scroll position: the bottom child and the selection.
#[derive(Debug, Clone, Copy, PartialEq, Eq, Structural)]
pub struct Position {
    pub bottom: usize,
    pub selected: Option<usize>,
}

/// The state of a scroll window.
#[derive(Debug)]
pub struct ScrollState {
    /// Index of the last visible child (the bottom one).
    pub bottom_visible_child_index: usize,
    /// Index of the first visible child (the top one), known after layout.
    pub first_visible_child_index: usize,
    /// Index of the selected child, if any.
    pub selected_child_index: Option<usize>,
    /// The area given at the last layout.
    pub dimensions: Option<Dimensions>,
    /// Whether the position is kept while the window is out of focus.
    pub remember_position: bool,
    /// The bottom and selection kept at the last loss of focus.
    pub remembered_position: Option<Position>,
    /// The text searched for, if a search is on.
    pub search_query: Option<String>,
}

pub open spec fn sat_sub(a: int, b: int) -> int {
    if a >= b {
        a - b
    } else {
        0
    }
}

impl ScrollState {
    pub fn new() -> (r: Self)
        ensures
            r == (ScrollState {
                bottom_visible_child_index: 0,
                first_visible_child_index: 0,
                selected_child_index: None,
                dimensions: None,
                remember_position: false,
                remembered_position: None,
                search_query: None,
            }),
    {
        ScrollState {
            bottom_visible_child_index: 0,
            first_visible_child_index: 0,
            selected_child_index: None,
            dimensions: None,
            remember_position: false,
            remembered_position: None,
            search_query: None,
        }
    }

    /// Keep the position while out of focus.
    pub fn with_position_memory(self) -> (r: Self)
        ensures
            r == (ScrollState { remember_position: true, ..self }),
    {
        ScrollState { remember_position: true, ..self }
    }

    /// The bottom child index, clamped to the children there are.
    pub open spec fn bottom_child(&self, len: int) -> int {
        if self.bottom_visible_child_index < len {
            self.bottom_visible_child_index as int
        } else {
            len - 1
        }
    }

    /// Move the selection to the previous (older) child, or to the bottom
    /// child when nothing is selected. Returns the old and new selection and
    /// whether the new one is the first child.
    pub fn select_prev(&mut self) -> (r: (Option<usize>, Option<usize>, bool))
        ensures
            ({
                let new = match old(self).selected_child_index {
                    None => old(self).bottom_visible_child_index as int,
                    Some(i) => sat_sub(i as int, 1),
                };
                &&& r == (old(self).selected_child_index, Some(new as usize), new == 0)
                &&& *final(self) == (ScrollState {
                    selected_child_index: Some(new as usize),
                    bottom_visible_child_index: if new < old(self).first_visible_child_index
                        && old(self).bottom_visible_child_index > 0 {
                        (old(self).bottom_visible_child_index - 1) as usize
                    } else {
                        old(self).bottom_visible_child_index
                    },
                    ..*old(self)
                })
            }),
    {
        let prev_sel = self.selected_child_index;
        let new = match prev_sel {
            None => self.bottom_visible_child_index,
            Some(i) => if i == 0 {
                0
            } else {
                i - 1
            },
        };
        self.selected_child_index = Some(new);
        if new < self.first_visible_child_index && self.bottom_visible_child_index > 0 {
            self.bottom_visible_child_index = self.bottom_visible_child_index - 1;
        }
        (prev_sel, Some(new), new == 0)
    }

    /// Move the selection to the next (newer) child of `len`, or to the
    /// bottom child when nothing is selected; the bottom follows it.
    pub fn select_next(&mut self, len: usize) -> (r: (Option<usize>, Option<usize>))
        requires
            old(self).selected_child_index matches Some(i) ==> i < usize::MAX,
        ensures
            ({
                let last = sat_sub(len as int, 1);
                let new = match old(self).selected_child_index {
                    None => old(self).bottom_visible_child_index as int,
                    Some(i) => if i + 1 < last {
                        i + 1
                    } else {
                        last
                    },
                };
                &&& r == (old(self).selected_child_index, Some(new as usize))
                &&& *final(self) == (ScrollState {
                    selected_child_index: Some(new as usize),
                    bottom_visible_child_index: if new > old(self).bottom_visible_child_index {
                        new as usize
                    } else {
                        old(self).bottom_visible_child_index
                    },
                    ..*old(self)
                })
            }),
    {
        let last = if len >= 1 {
            len - 1
        } else {
            0
        };
        let prev_sel = self.selected_child_index;
        let new = match prev_sel {
            None => self.bottom_visible_child_index,
            Some(i) => if i + 1 < last {
                i + 1
            } else {
                last
            },
        };
        self.selected_child_index = Some(new);
        if new > self.bottom_visible_child_index {
            self.bottom_visible_child_index = new;
        }
        (prev_sel, Some(new))
    }

    /// Drop the selection, returning it.
    pub fn clear_selection(&mut self) -> (r: Option<usize>)
        ensures
            r == old(self).selected_child_index,
            *final(self) == (ScrollState { selected_child_index: None, ..*old(self) }),
    {
        let r = self.selected_child_index;
        self.selected_child_index = None;
        r
    }

    pub fn has_selection(&self) -> (r: bool)
        ensures
            r == self.selected_child_index is Some,
    {
        self.selected_child_index.is_some()
    }

    /// Select the bottom child without scrolling (nothing when there is no
    /// child). Returns the old and new selection.
    pub fn select_last_visible(&mut self, len: usize) -> (r: (Option<usize>, Option<usize>))
        ensures
            len == 0 ==> r == (old(self).selected_child_index, None::<usize>) && *final(self) == (
            ScrollState { selected_child_index: None, ..*old(self) }),
            len > 0 ==> r == (old(self).selected_child_index, Some(old(self).bottom_visible_child_index))
                && *final(self) == (ScrollState {
                selected_child_index: Some(old(self).bottom_visible_child_index),
                ..*old(self)
            }),
    {
        let prev_sel = self.selected_child_index;
        if len == 0 {
            self.selected_child_index = None;
            (prev_sel, None)
        } else {
            let new = self.bottom_visible_child_index;
            self.selected_child_index = Some(new);
            (prev_sel, Some(new))
        }
    }

    /// Account for an insertion into `len` children: when the bottom was on
    /// the last child and a child was added, the bottom follows.
    pub fn inserted(&mut self, len: usize, added: bool)
        requires
            old(self).bottom_visible_child_index < usize::MAX,
        ensures
            *final(self) == (ScrollState {
                bottom_visible_child_index: if added && old(self).bottom_visible_child_index + 1 == len {
                    (old(self).bottom_visible_child_index + 1) as usize
                } else {
                    old(self).bottom_visible_child_index
                },
                ..*old(self)
            }),
    {
        let stick_to_bottom = self.bottom_visible_child_index + 1 == len;
        if added && stick_to_bottom {
            self.bottom_visible_child_index = self.bottom_visible_child_index + 1;
        }
    }

    /// Account for an insertion that replaces an equal child: the bottom
    /// follows only for a genuinely new child.
    pub fn replaced(&mut self, len: usize, was_present: bool, added: bool)
        requires
            old(self).bottom_visible_child_index < usize::MAX,
        ensures
            *final(self) == (ScrollState {
                bottom_visible_child_index: if added && !was_present && old(self).bottom_visible_child_index
                    + 1 == len {
                    (old(self).bottom_visible_child_index + 1) as usize
                } else {
                    old(self).bottom_visible_child_index
                },
                ..*old(self)
            }),
    {
        let stick_to_bottom = self.bottom_visible_child_index + 1 == len;
        if added && !was_present && stick_to_bottom {
            self.bottom_visible_child_index = self.bottom_visible_child_index + 1;
        }
    }

    /// Account for the removal of the child at `removed_index`, leaving
    /// `len` children: the bottom and the selection keep pointing at the same
    /// children, and a removed selection is dropped.
    pub fn removed(&mut self, removed_index: usize, len: usize)
        ensures
            final(self).bottom_visible_child_index == if len == 0 {
                0
            } else if removed_index <= old(self).bottom_visible_child_index
                && old(self).bottom_visible_child_index > 0 {
                (old(self).bottom_visible_child_index - 1) as usize
            } else {
                old(self).bottom_visible_child_index
            },
            final(self).selected_child_index == match old(self).selected_child_index {
                Some(sel) => if sel == removed_index {
                    None
                } else if sel > removed_index {
                    Some((sel - 1) as usize)
                } else {
                    Some(sel)
                },
                None => None,
            },
            *final(self) == (ScrollState {
                bottom_visible_child_index: final(self).bottom_visible_child_index,
                selected_child_index: final(self).selected_child_index,
                ..*old(self)
            }),
    {
        if len == 0 {
            self.bottom_visible_child_index = 0;
        } else if removed_index <= self.bottom_visible_child_index && self.bottom_visible_child_index > 0 {
            self.bottom_visible_child_index = self.bottom_visible_child_index - 1;
        }
        match self.selected_child_index {
            Some(sel) => {
                if sel == removed_index {
                    self.selected_child_index = None;
                } else if sel > removed_index {
                    self.selected_child_index = Some(sel - 1);
                }
            },
            None => {},
        }
    }

    /// How many children, from the bottom one up, fit in `rows` rows.
    pub open spec fn fitting_up(&self, hs: Seq<u16>, rows: int) -> int {
        match scan_up(hs, self.bottom_child(hs.len() as int), rows, 0) {
            Some(i) => i,
            None => self.bottom_child(hs.len() as int) + 1,
        }
    }

    /// The bottom child after a page up.
    pub open spec fn page_up_bottom(&self, hs: Seq<u16>, rows: int) -> int {
        match scan_up(hs, self.bottom_child(hs.len() as int), rows, 0) {
            Some(i) => sat_sub(self.bottom_visible_child_index as int, if i == 0 {
                1
            } else {
                i
            }),
            None => self.bottom_visible_child_index as int,
        }
    }

    /// The bottom child after a page down.
    pub open spec fn page_down_bottom(&self, hs: Seq<u16>, rows: int) -> int {
        match scan_down(hs, self.bottom_child(hs.len() as int), rows, 0) {
            Some(i) => self.bottom_visible_child_index + i,
            None => hs.len() - 1,
        }
    }

    /// The first visible child for the current bottom.
    pub open spec fn first_visible_spec(&self, hs: Seq<u16>) -> int {
        match self.dimensions {
            None => 0,
            Some(d) => if hs.len() == 0 {
                0
            } else {
                let count = self.fitting_up(hs, d.height as int);
                self.bottom_visible_child_index + 1 - (if count >= 1 {
                    count
                } else {
                    1
                })
            },
        }
    }

    fn scan_up_exec(&self, hs: &[u16], rows: u16) -> (r: Option<usize>)
        requires
            hs@.len() > 0,
        ensures
            r == match scan_up(hs@, self.bottom_child(hs@.len() as int), rows as int, 0) {
                Some(i) => Some(i as usize),
                None => None::<usize>,
            },
            r matches Some(i) ==> i <= self.bottom_child(hs@.len() as int),
            scan_up(hs@, self.bottom_child(hs@.len() as int), rows as int, 0) matches Some(k) ==> 0 <= k
                <= self.bottom_child(hs@.len() as int),
    {
        proof {
            lemma_scan_up_range(hs@, self.bottom_child(hs@.len() as int), rows as int, 0);
        }
        let n = hs.len();
        let b = if self.bottom_visible_child_index < n {
            self.bottom_visible_child_index
        } else {
            n - 1
        };
        let mut remaining = rows;
        let mut i: usize = 0;
        while i <= b
            invariant
                b < n,
                n == hs@.len(),
                b == self.bottom_child(n as int),
                scan_up(hs@, b as int, rows as int, 0) == scan_up(hs@, b as int, remaining as int, i as int),
                i <= b + 1,
            decreases b + 1 - i,
        {
            let ch = hs[b - i];
            if ch > remaining {
                return Some(i);
            }
            remaining = remaining - ch;
            i = i + 1;
        }
        None
    }

    /// The index of the first visible child for the current bottom: the
    /// children from the bottom up that fit in the view, at least one.
    pub fn compute_first_visible(&self, hs: &[u16]) -> (r: usize)
        requires
            self.bottom_visible_child_index < usize::MAX,
        ensures
            r == self.first_visible_spec(hs@),
    {
        match self.dimensions {
            None => 0,
            Some(d) => {
                if hs.len() == 0 {
                    return 0;
                }
                let count = match self.scan_up_exec(hs, d.height) {
                    Some(i) => i,
                    None => if self.bottom_visible_child_index < hs.len() {
                        self.bottom_visible_child_index + 1
                    } else {
                        hs.len()
                    },
                };
                let c = if count >= 1 {
                    count
                } else {
                    1
                };
                self.bottom_visible_child_index + 1 - c
            },
        }
    }

    /// Scroll up by a page, unless all the children fit in the view. A
    /// selection below the new bottom moves up to it. Returns whether the
    /// top was reached (or nothing moved), and the old and new selection.
    pub fn page_up(&mut self, hs: &[u16]) -> (r: (bool, Option<usize>, Option<usize>))
        requires
            old(self).dimensions is Some,
            hsum(hs@) <= u32::MAX,
        ensures
            ({
                let rows = old(self).dimensions->0.height as int;
                let sel = old(self).selected_child_index;
                if hsum(hs@) < rows {
                    r == (true, sel, sel) && *final(self) == *old(self)
                } else {
                    let b = old(self).page_up_bottom(hs@, rows);
                    let new_sel = match sel {
                        Some(s) => if s > b {
                            Some(b as usize)
                        } else {
                            Some(s)
                        },
                        None => None,
                    };
                    &&& *final(self) == (ScrollState {
                        bottom_visible_child_index: b as usize,
                        selected_child_index: new_sel,
                        ..*old(self)
                    })
                    &&& r == (b == 0 || b == old(self).bottom_visible_child_index, sel, new_sel)
                }
            }),
    {
        let d = self.dimensions.unwrap();
        let total = total_height(hs);
        let sel = self.selected_child_index;
        if total < d.height as u32 {
            return (true, sel, sel);
        }
        let initial = self.bottom_visible_child_index;
        if hs.len() > 0 {
            match self.scan_up_exec(hs, d.height) {
                Some(i) => {
                    let step = if i == 0 {
                        1
                    } else {
                        i
                    };
                    self.bottom_visible_child_index = if initial >= step {
                        initial - step
                    } else {
                        0
                    };
                },
                None => {},
            }
        }
        let b = self.bottom_visible_child_index;
        match self.selected_child_index {
            Some(s) => {
                if s > b {
                    self.selected_child_index = Some(b);
                }
            },
            None => {},
        }
        (b == 0 || b == initial, sel, self.selected_child_index)
    }

    /// Scroll down by a page, unless all the children fit in the view. A
    /// selection above the new first visible child moves down to it.
    /// Returns the old and new selection.
    pub fn page_down(&mut self, hs: &[u16]) -> (r: (Option<usize>, Option<usize>))
        requires
            old(self).dimensions is Some,
            hsum(hs@) <= u32::MAX,
            hs@.len() == 0 ==> old(self).dimensions->0.height > 0,
            old(self).bottom_visible_child_index + hs@.len() < usize::MAX,
        ensures
            ({
                let rows = old(self).dimensions->0.height as int;
                let sel = old(self).selected_child_index;
                if hsum(hs@) < rows {
                    r == (sel, sel) && *final(self) == *old(self)
                } else {
                    let b = old(self).page_down_bottom(hs@, rows);
                    let moved = ScrollState { bottom_visible_child_index: b as usize, ..*old(self) };
                    let first = moved.first_visible_spec(hs@);
                    let new_sel = match sel {
                        Some(s) => if s < first {
                            Some(first as usize)
                        } else {
                            Some(s)
                        },
                        None => None,
                    };
                    &&& *final(self) == (ScrollState { selected_child_index: new_sel, ..moved })
                    &&& r == (sel, new_sel)
                }
            }),
    {
        let d = self.dimensions.unwrap();
        let total = total_height(hs);
        let sel = self.selected_child_index;
        if total < d.height as u32 {
            return (sel, sel);
        }
        let n = hs.len();
        let b = if self.bottom_visible_child_index < n {
            self.bottom_visible_child_index
        } else {
            n - 1
        };
        let mut remaining = d.height;
        let mut i: usize = 0;
        let mut found: Option<usize> = None;
        while b + i < n && found.is_none()
            invariant
                n == hs@.len(),
                n > 0,
                b == self.bottom_child(n as int),
                b < n,
                b + i <= n,
                self.bottom_visible_child_index + n < usize::MAX,
                found is None ==> scan_down(hs@, b as int, d.height as int, 0) == scan_down(
                    hs@,
                    b as int,
                    remaining as int,
                    i as int,
                ),
                found matches Some(k) ==> scan_down(hs@, b as int, d.height as int, 0) == Some(k as int)
                    && k < n,
            decreases n - (b + i) + (if found is None { 1int } else { 0int }),
        {
            let ch = hs[b + i];
            if ch > remaining {
                found = Some(i);
            } else {
                remaining = remaining - ch;
                i = i + 1;
            }
        }
        proof {
            lemma_scan_down_range(hs@, b as int, d.height as int, 0);
        }
        match found {
            Some(k) => {
                self.bottom_visible_child_index = self.bottom_visible_child_index + k;
            },
            None => {
                self.bottom_visible_child_index = n - 1;
            },
        }
        match self.selected_child_index {
            Some(s) => {
                let first = self.compute_first_visible(hs);
                if s < first {
                    self.selected_child_index = Some(first);
                }
            },
            None => {},
        }
        (sel, self.selected_child_index)
    }

    /// Show the first children, selecting the first one: the bottom becomes
    /// the child at which the view is filled.
    pub fn scroll_to_top(&mut self, hs: &[u16]) -> (r: (Option<usize>, Option<usize>))
        requires
            hsum(hs@) <= u32::MAX,
        ensures
            hs@.len() == 0 ==> r == (old(self).selected_child_index, None::<usize>) && *final(self) == (
            ScrollState { selected_child_index: None, ..*old(self) }),
            hs@.len() > 0 && old(self).dimensions is None ==> r == (old(self).selected_child_index, Some(0usize))
                && *final(self) == (ScrollState {
                bottom_visible_child_index: 0,
                selected_child_index: Some(0),
                ..*old(self)
            }),
            hs@.len() > 0 && old(self).dimensions is Some ==> r == (old(self).selected_child_index, Some(0usize))
                && *final(self) == (ScrollState {
                bottom_visible_child_index: reach_at(
                    hs@,
                    old(self).dimensions->0.height as int,
                    0,
                    0,
                ) as usize,
                selected_child_index: Some(0),
                ..*old(self)
            }),
    {
        let prev_sel = self.selected_child_index;
        if hs.len() == 0 {
            self.selected_child_index = None;
            return (prev_sel, None);
        }
        match self.dimensions {
            None => {
                self.bottom_visible_child_index = 0;
                self.selected_child_index = Some(0);
                (prev_sel, Some(0))
            },
            Some(d) => {
                let n = hs.len();
                let mut acc: u32 = 0;
                let mut i: usize = 0;
                proof {
                    lemma_reach_at_bound(hs@, d.height as int, 0, 0);
                }
                while i + 1 < n && (acc as u64) + (hs[i] as u64) < d.height as u64
                    invariant
                        n == hs@.len(),
                        i < n,
                        hsum(hs@) <= u32::MAX,
                        acc == hsum(hs@.take(i as int)),
                        reach_at(hs@, d.height as int, 0, 0) == reach_at(hs@, d.height as int, acc as int, i as int),
                    decreases n - i,
                {
                    proof {
                        lemma_hsum_prefix(hs@, i + 1);
                        assert(hs@.take(i + 1).drop_last() =~= hs@.take(i as int));
                    }
                    acc = acc + hs[i] as u32;
                    i = i + 1;
                }
                self.bottom_visible_child_index = i;
                self.selected_child_index = Some(0);
                (prev_sel, Some(0))
            },
        }
    }

    /// How many children, from the bottom one up, are at least partly
    /// visible in the area `d`.
    pub fn visible_children_count(&self, d: &Dimensions, hs: &[u16]) -> (r: usize)
        requires
            self.bottom_visible_child_index < usize::MAX,
        ensures
            r == shown_up(
                hs@,
                if self.bottom_visible_child_index + 1 < hs@.len() {
                    self.bottom_visible_child_index + 1
                } else {
                    hs@.len() as int
                },
                d.height as int,
                0,
            ),
    {
        let end = if self.bottom_visible_child_index + 1 < hs.len() {
            self.bottom_visible_child_index + 1
        } else {
            hs.len()
        };
        let mut remaining = d.height;
        let mut i: usize = 0;
        let mut count: usize = 0;
        proof {
            lemma_shown_up_bound(hs@, end as int, d.height as int, 0);
        }
        while i < end && remaining > 0
            invariant
                end <= hs@.len(),
                i <= end,
                count == i,
                shown_up(hs@, end as int, d.height as int, 0) == i + shown_up(
                    hs@,
                    end as int,
                    remaining as int,
                    i as int,
                ),
            decreases end - i,
        {
            let h = hs[end - 1 - i];
            remaining = remaining - if h < remaining {
                h
            } else {
                remaining
            };
            i = i + 1;
            count = count + 1;
        }
        count
    }

    /// Lay out the children of heights `hs` in the area `d`: from the top
    /// when they do not fill it down to the bottom child, otherwise from
    /// the bottom child up. Returns the area of each child laid out, by
    /// index.
    #[verifier::rlimit(30)]
    pub fn layout(&mut self, d: Dimensions, hs: &[u16]) -> (plan: Vec<(usize, Dimensions)>)
        requires
            hs@.len() > 0 ==> old(self).bottom_visible_child_index < hs@.len(),
            hsum(hs@) <= u32::MAX,
            d.top + d.height <= u16::MAX,
        ensures
            hs@.len() == 0 ==> plan@.len() == 0 && *final(self) == (ScrollState {
                dimensions: Some(d),
                ..*old(self)
            }),
            hs@.len() > 0 && (hsum(hs@) < d.height || hsum(
                hs@.take(old(self).bottom_visible_child_index + 1),
            ) < d.height) ==> ({
                let c = fit_from_top(hs@, d.height as int, 0);
                let count = if c >= 1 {
                    c
                } else {
                    1
                };
                &&& *final(self) == (ScrollState {
                    dimensions: Some(d),
                    first_visible_child_index: 0,
                    bottom_visible_child_index: (count - 1) as usize,
                    ..*old(self)
                })
                &&& plan@ == layout_down(hs@, 0, count, d.top as int, d)
            }),
            hs@.len() > 0 && !(hsum(hs@) < d.height || hsum(
                hs@.take(old(self).bottom_visible_child_index + 1),
            ) < d.height) ==> ({
                let b = old(self).bottom_visible_child_index as int;
                let count = shown_up(hs@, b + 1, d.height as int, 0);
                &&& *final(self) == (ScrollState {
                    dimensions: Some(d),
                    first_visible_child_index: (b + 1 - count) as usize,
                    ..*old(self)
                })
                &&& plan@ == layout_up(hs@, b, count, d.top + d.height, d.height as int, d)
            }),
    {
        self.dimensions = Some(d);
        let mut plan: Vec<(usize, Dimensions)> = Vec::new();
        let n = hs.len();
        if n == 0 {
            return plan;
        }
        let b = self.bottom_visible_child_index;
        let total = total_height(hs);
        proof {
            lemma_hsum_prefix(hs@, b + 1);
        }
        let to_bottom = total_height(&hs[0..b + 1]);
        assert(hs@.subrange(0, b + 1) =~= hs@.take(b + 1));
        if total < d.height as u32 || to_bottom < d.height as u32 {
            proof {
                lemma_hsum_prefix(hs@, 1);
                lemma_hsum_prefix(hs@.take(b + 1), 1);
                assert(hs@.take(b + 1).take(1) =~= hs@.take(1));
                assert(hs@.take(1).drop_last() =~= Seq::<u16>::empty());
                assert(hsum(Seq::<u16>::empty()) == 0);
                assert(hs@.take(1).last() == hs@[0]);
                assert(hsum(hs@.take(1)) == hs@[0]);
                lemma_fit_from_top_bound(hs@, d.height as int, 0);
            }
            assert(hs@[0] < d.height);
            let mut remaining = d.height;
            let mut c: usize = 0;
            while c < n && hs[c] <= remaining
                invariant
                    n == hs@.len(),
                    c <= n,
                    n > 0,
                    remaining <= d.height,
                    c == 0 ==> remaining == d.height,
                    hs@[0] < d.height,
                    fit_from_top(hs@, d.height as int, 0) == c + fit_from_top(
                        hs@,
                        remaining as int,
                        c as int,
                    ),
                decreases n - c,
            {
                remaining = remaining - hs[c];
                c = c + 1;
            }
            assert(c >= 1);
            let count = if c >= 1 {
                c
            } else {
                1
            };
            self.first_visible_child_index = 0;
            self.bottom_visible_child_index = count - 1;
            let ghost whole = layout_down(hs@, 0, count as int, d.top as int, d);
            let mut child_top = d.top;
            let mut rem = d.height;
            let mut j: usize = 0;
            assert(plan@ + whole =~= whole);
            while j < count
                invariant
                    n == hs@.len(),
                    count == c,
                    1 <= c <= n,
                    j <= count,
                    d.top + d.height <= u16::MAX,
                    child_top == d.top + (d.height - rem),
                    rem <= d.height,
                    c == j + fit_from_top(hs@, rem as int, j as int),
                    whole == layout_down(hs@, 0, count as int, d.top as int, d),
                    plan@ + layout_down(hs@, j as int, count - j, child_top as int, d) == whole,
                decreases count - j,
            {
                let h = hs[j];
                let ghost tail = layout_down(hs@, j + 1, count - j - 1, child_top + h, d);
                let entry = (j, Dimensions { top: child_top, left: d.left, width: d.width, height: h });
                let ghost before = plan@;
                plan.push(entry);
                assert(before + layout_down(hs@, j as int, count - j, child_top as int, d) =~= plan@ + tail);
                child_top = child_top + h;
                rem = rem - h;
                j = j + 1;
            }
            assert(plan@ =~= whole);
        } else {
            let count = self.visible_children_count(&d, hs);
            proof {
                lemma_shown_up_bound(hs@, b + 1, d.height as int, 0);
            }
            self.first_visible_child_index = b + 1 - count;
            let ghost whole = layout_up(hs@, b as int, count as int, d.top + d.height, d.height as int, d);
            let mut child_top = d.top + d.height;
            let mut avail = d.height;
            let mut k: usize = 0;
            assert(plan@ + whole =~= whole);
            while k < count
                invariant
                    n == hs@.len(),
                    b < n,
                    count <= b + 1,
                    k <= count,
                    child_top == d.top + avail,
                    whole == layout_up(hs@, b as int, count as int, d.top + d.height, d.height as int, d),
                    plan@ + layout_up(hs@, b - k, count - k, child_top as int, avail as int, d) == whole,
                decreases count - k,
            {
                let idx = b - k;
                let h = hs[idx];
                let a = if h < avail {
                    h
                } else {
                    avail
                };
                let ghost tail = layout_up(hs@, idx - 1, count - k - 1, child_top - a, avail - a, d);
                child_top = child_top - a;
                let entry = (idx, Dimensions { top: child_top, left: d.left, width: d.width, height: a });
                let ghost before = plan@;
                plan.push(entry);
                assert(before + layout_up(hs@, b - k, count - k, (child_top + a) as int, avail as int, d)
                    =~= plan@ + tail);
                avail = avail - a;
                k = k + 1;
            }
            assert(plan@ =~= whole);
        }
        plan
    }

    /// The child a search starts from: the selection, or the bottom child.
    pub open spec fn anchor(&self) -> int {
        match self.selected_child_index {
            Some(s) => s as int,
            None => self.bottom_visible_child_index as int,
        }
    }

    /// The state after looking for a match in `order`.
    pub open spec fn found(&self, order: Seq<int>, matches: Seq<bool>) -> (Option<usize>, Option<usize>, usize) {
        match first_match(order, matches) {
            Some(i) => (
                self.selected_child_index,
                Some(i as usize),
                if i > self.bottom_visible_child_index {
                    i as usize
                } else {
                    self.bottom_visible_child_index
                },
            ),
            None => (self.selected_child_index, self.selected_child_index, self.bottom_visible_child_index),
        }
    }

    fn search_from(&mut self, order: &Vec<usize>, matches: &[bool]) -> (r: (Option<usize>, Option<usize>))
        requires
            forall|k: int| 0 <= k < order@.len() ==> (#[trigger] order@[k]) < matches@.len(),
        ensures
            ({
                let o = as_ints(order@);
                let (a, b, bottom) = old(self).found(o, matches@);
                &&& r == (a, b)
                &&& *final(self) == (ScrollState {
                    selected_child_index: b,
                    bottom_visible_child_index: bottom,
                    ..*old(self)
                })
            }),
    {
        let ghost o = as_ints(order@);
        let prev_sel = self.selected_child_index;
        let mut k: usize = 0;
        assert(o.subrange(0, o.len() as int) =~= o);
        while k < order.len()
            invariant
                forall|m: int| 0 <= m < order@.len() ==> (#[trigger] order@[m]) < matches@.len(),
                k <= order@.len(),
                o == as_ints(order@),
                first_match(o, matches@) == first_match(o.subrange(k as int, o.len() as int), matches@),
                *self == *old(self),
                prev_sel == old(self).selected_child_index,
            decreases order.len() - k,
        {
            let i = order[k];
            let ghost rest = o.subrange(k as int, o.len() as int);
            assert(rest[0] == i);
            assert(rest.drop_first() =~= o.subrange(k + 1, o.len() as int));
            if matches[i] {
                assert(first_match(rest, matches@) == Some(i as int));
                self.selected_child_index = Some(i);
                if i > self.bottom_visible_child_index {
                    self.bottom_visible_child_index = i;
                }
                return (prev_sel, Some(i));
            }
            k = k + 1;
        }
        assert(o.subrange(k as int, o.len() as int) =~= Seq::<int>::empty());
        (prev_sel, prev_sel)
    }

    /// Start a search for `query`; `matches` tells, for each child, whether
    /// it matches. Selects the first match looking up from the anchor, then
    /// down from the last child; returns the old and new selection.
    pub fn set_search(&mut self, query: String, matches: &[bool]) -> (r: (Option<usize>, Option<usize>))
        requires
            matches@.len() > 0 ==> old(self).anchor() <= matches@.len(),
        ensures
            final(self).search_query == Some(query),
            matches@.len() == 0 ==> r == (old(self).selected_child_index, old(self).selected_child_index)
                && *final(self) == (ScrollState { search_query: Some(query), ..*old(self) }),
            matches@.len() > 0 ==> ({
                let (a, b, bottom) = old(self).found(
                    search_order(old(self).anchor(), matches@.len() as int),
                    matches@,
                );
                &&& r == (a, b)
                &&& *final(self) == (ScrollState {
                    selected_child_index: b,
                    bottom_visible_child_index: bottom,
                    search_query: Some(query),
                    ..*old(self)
                })
            }),
    {
        self.search_query = Some(query);
        let len = matches.len();
        if len == 0 {
            return (self.selected_child_index, self.selected_child_index);
        }
        let anchor = match self.selected_child_index {
            Some(s) => s,
            None => self.bottom_visible_child_index,
        };
        let mut order: Vec<usize> = Vec::new();
        let mut i = anchor;
        while i > 0
            invariant
                i <= anchor,
                anchor <= len,
                as_ints(order@) == down_from(anchor as int, i as int),
                forall|k: int| 0 <= k < order@.len() ==> (#[trigger] order@[k]) < len,
            decreases i,
        {
            i = i - 1;
            let ghost before = as_ints(order@);
            order.push(i);
            assert(as_ints(order@) =~= before.push(i as int));
            assert(as_ints(order@) =~= down_from(anchor as int, i as int));
        }
        let ghost first = as_ints(order@);
        let mut j = len;
        while j > anchor
            invariant
                anchor <= j <= len,
                first == down_from(anchor as int, 0),
                as_ints(order@) == first + down_from(len as int, j as int),
                forall|k: int| 0 <= k < order@.len() ==> (#[trigger] order@[k]) < len,
            decreases j,
        {
            j = j - 1;
            let ghost before = as_ints(order@);
            order.push(j);
            assert(as_ints(order@) =~= before.push(j as int));
            assert(as_ints(order@) =~= first + down_from(len as int, j as int));
        }
        self.search_from(&order, matches)
    }

    /// Select the next match going down from the anchor to the first
    /// child, then from the last child; nothing happens without a search.
    pub fn search_next(&mut self, matches: &[bool]) -> (r: (Option<usize>, Option<usize>))
        requires
            old(self).search_query is Some && matches@.len() > 0 ==> old(self).anchor() <= matches@.len()
                && old(self).anchor() < usize::MAX,
        ensures
            old(self).search_query is None || matches@.len() == 0 ==> r == (
                old(self).selected_child_index,
                old(self).selected_child_index,
            ) && *final(self) == *old(self),
            old(self).search_query is Some && matches@.len() > 0 ==> ({
                let (a, b, bottom) = old(self).found(
                    next_order(old(self).anchor(), matches@.len() as int),
                    matches@,
                );
                &&& r == (a, b)
                &&& *final(self) == (ScrollState {
                    selected_child_index: b,
                    bottom_visible_child_index: bottom,
                    ..*old(self)
                })
            }),
    {
        if self.search_query.is_none() {
            return (self.selected_child_index, self.selected_child_index);
        }
        let len = matches.len();
        if len == 0 {
            return (self.selected_child_index, self.selected_child_index);
        }
        let anchor = match self.selected_child_index {
            Some(s) => s,
            None => self.bottom_visible_child_index,
        };
        let mut order: Vec<usize> = Vec::new();
        let mut j = len;
        while j > anchor + 1
            invariant
                anchor < usize::MAX,
                anchor <= len,
                anchor + 1 <= j <= len || j == len,
                as_ints(order@) == down_from(len as int, j as int),
                forall|k: int| 0 <= k < order@.len() ==> (#[trigger] order@[k]) < len,
            decreases j,
        {
            j = j - 1;
            let ghost before = as_ints(order@);
            order.push(j);
            assert(as_ints(order@) =~= before.push(j as int));
            assert(as_ints(order@) =~= down_from(len as int, j as int));
        }
        assert(as_ints(order@) =~= down_from(len as int, anchor + 1));
        let ghost first = as_ints(order@);
        let mut i = anchor;
        while i > 0
            invariant
                i <= anchor,
                anchor <= len,
                first == down_from(len as int, anchor + 1),
                as_ints(order@) == first + down_from(anchor as int, i as int),
                forall|k: int| 0 <= k < order@.len() ==> (#[trigger] order@[k]) < len,
            decreases i,
        {
            i = i - 1;
            let ghost before = as_ints(order@);
            order.push(i);
            assert(as_ints(order@) =~= before.push(i as int));
            assert(as_ints(order@) =~= first + down_from(anchor as int, i as int));
        }
        self.search_from(&order, matches)
    }

    /// Select the previous match going up from just below the anchor to the
    /// last child, then from the first child to the anchor; nothing happens
    /// without a search.
    pub fn search_prev(&mut self, matches: &[bool]) -> (r: (Option<usize>, Option<usize>))
        requires
            old(self).search_query is Some && matches@.len() > 0 ==> old(self).anchor() < matches@.len(),
        ensures
            old(self).search_query is None || matches@.len() == 0 ==> r == (
                old(self).selected_child_index,
                old(self).selected_child_index,
            ) && *final(self) == *old(self),
            old(self).search_query is Some && matches@.len() > 0 ==> ({
                let (a, b, bottom) = old(self).found(
                    prev_order(old(self).anchor(), matches@.len() as int),
                    matches@,
                );
                &&& r == (a, b)
                &&& *final(self) == (ScrollState {
                    selected_child_index: b,
                    bottom_visible_child_index: bottom,
                    ..*old(self)
                })
            }),
    {
        if self.search_query.is_none() {
            return (self.selected_child_index, self.selected_child_index);
        }
        let len = matches.len();
        if len == 0 {
            return (self.selected_child_index, self.selected_child_index);
        }
        let anchor = match self.selected_child_index {
            Some(s) => s,
            None => self.bottom_visible_child_index,
        };
        let mut order: Vec<usize> = Vec::new();
        let mut j = anchor + 1;
        while j < len
            invariant
                anchor < len,
                anchor + 1 <= j <= len,
                as_ints(order@) == up_to(anchor + 1, j as int),
                forall|k: int| 0 <= k < order@.len() ==> (#[trigger] order@[k]) < len,
            decreases len - j,
        {
            let ghost before = as_ints(order@);
            order.push(j);
            assert(as_ints(order@) =~= before.push(j as int));
            j = j + 1;
            assert(as_ints(order@) =~= up_to(anchor + 1, j as int));
        }
        let ghost first = as_ints(order@);
        let mut i: usize = 0;
        while i <= anchor
            invariant
                i <= anchor + 1,
                anchor < len,
                first == up_to(anchor + 1, len as int),
                as_ints(order@) == first + up_to(0, i as int),
                forall|k: int| 0 <= k < order@.len() ==> (#[trigger] order@[k]) < len,
            decreases anchor + 1 - i,
        {
            let ghost before = as_ints(order@);
            order.push(i);
            assert(as_ints(order@) =~= before.push(i as int));
            i = i + 1;
            assert(as_ints(order@) =~= first + up_to(0, i as int));
        }
        self.search_from(&order, matches)
    }

    /// End the search.
    pub fn clear_search(&mut self)
        ensures
            *final(self) == (ScrollState { search_query: None, ..*old(self) }),
    {
        self.search_query = None;
    }

    /// The text searched for, if any.
    pub fn current_search(&self) -> (r: Option<&str>)
        ensures
            match self.search_query {
                Some(q) => r matches Some(s) && s@ == q@,
                None => r is None,
            },
    {
        match &self.search_query {
            Some(q) => Some(q.as_str()),
            None => None,
        }
    }

    /// Show the last children of `len`, selecting the last one.
    pub fn scroll_to_bottom(&mut self, len: usize) -> (r: (Option<usize>, Option<usize>))
        ensures
            len == 0 ==> r == (old(self).selected_child_index, None::<usize>) && *final(self) == (
            ScrollState { selected_child_index: None, ..*old(self) }),
            len > 0 ==> r == (old(self).selected_child_index, Some((len - 1) as usize)) && *final(self)
                == (ScrollState {
                bottom_visible_child_index: (len - 1) as usize,
                selected_child_index: Some((len - 1) as usize),
                ..*old(self)
            }),
    {
        let prev_sel = self.selected_child_index;
        if len == 0 {
            self.selected_child_index = None;
            (prev_sel, None)
        } else {
            let last = len - 1;
            self.bottom_visible_child_index = last;
            self.selected_child_index = Some(last);
            (prev_sel, Some(last))
        }
    }

    /// Focus changes: with position memory, losing focus keeps the bottom
    /// and the selection, and gaining it back restores them (or selects the
    /// first visible child when nothing was kept).
    pub fn on_focus_change(&mut self, focused: bool)
        ensures
            !old(self).remember_position ==> *final(self) == *old(self),
            old(self).remember_position && !focused ==> *final(self) == (ScrollState {
                remembered_position: Some(
                    Position {
                        bottom: old(self).bottom_visible_child_index,
                        selected: old(self).selected_child_index,
                    },
                ),
                ..*old(self)
            }),
            old(self).remember_position && focused ==> *final(self) == match old(
                self,
            ).remembered_position {
                Some(p) => ScrollState {
                    bottom_visible_child_index: p.bottom,
                    selected_child_index: p.selected,
                    remembered_position: None,
                    ..*old(self)
                },
                None => ScrollState {
                    selected_child_index: Some(old(self).first_visible_child_index),
                    ..*old(self)
                },
            },
    {
        if self.remember_position {
            if focused {
                match self.remembered_position {
                    Some(p) => {
                        self.remembered_position = None;
                        self.bottom_visible_child_index = p.bottom;
                        self.selected_child_index = p.selected;
                    },
                    None => {
                        self.selected_child_index = Some(self.first_visible_child_index);
                    },
                }
            } else {
                self.remembered_position = Some(
                    Position {
                        bottom: self.bottom_visible_child_index,
                        selected: self.selected_child_index,
                    },
                );
            }
        }
    }
}

/// The heights the children get from their requests in a view `h` rows
/// tall.
pub fn child_heights(requested: &[RequestedDimension], h: u16) -> (r: Vec<u16>)
    ensures
        r@ == resolved(requested@, h),
{
    let mut r: Vec<u16> = Vec::new();
    for i in 0..requested.len()
        invariant
            r@ == resolved(requested@, h).take(i as int),
    {
        let x = match requested[i] {
            RequestedDimension::ExpandMax => h,
            RequestedDimension::Absolute(x) => x,
        };
        r.push(x);
        assert(r@ =~= resolved(requested@, h).take(i + 1));
    }
    assert(resolved(requested@, h).take(requested.len() as int) =~= resolved(requested@, h));
    r
}

pub proof fn lemma_hsum_prefix(hs: Seq<u16>, k: int)
    requires
        0 <= k <= hs.len(),
    ensures
        0 <= hsum(hs.take(k)) <= hsum(hs),
    decreases hs.len(),
{
    if k < hs.len() {
        assert(hs.drop_last().take(k) =~= hs.take(k));
        lemma_hsum_prefix(hs.drop_last(), k);
    } else {
        assert(hs.take(k) =~= hs);
    }
    if hs.len() > 0 {
        lemma_hsum_prefix(hs.drop_last(), hs.len() - 1);
        assert(hs.drop_last().take(hs.len() - 1) =~= hs.drop_last());
    }
}

/// The total of the heights, which must fit in `u32`.
pub fn total_height(hs: &[u16]) -> (r: u32)
    requires
        hsum(hs@) <= u32::MAX,
    ensures
        r == hsum(hs@),
{
    let mut t: u32 = 0;
    for i in 0..hs.len()
        invariant
            hsum(hs@) <= u32::MAX,
            t == hsum(hs@.take(i as int)),
    {
        proof {
            lemma_hsum_prefix(hs@, i + 1);
            assert(hs@.take(i + 1).drop_last() =~= hs@.take(i as int));
        }
        t = t + hs[i] as u32;
    }
    assert(hs@.take(hs.len() as int) =~= hs@);
    t
}

} // verus!
