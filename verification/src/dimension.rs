//! Size constraints of the line-oriented views: a width and a height that
//! may still be open, and the area a view is given.

use vstd::prelude::*;
use crate::layout::{LayoutParam, LayoutParams, Orientation};

verus! {

/// Constraints on a view's size; `None` leaves that side open.
#[derive(Debug, Clone, Copy, Default, PartialEq, Eq, Structural)]
pub struct DimensionSpec {
    pub width: Option<u16>,
    pub height: Option<u16>,
}

/// The area a view is given: its corner and its size.
#[derive(Debug, Clone, Copy, Default, PartialEq, Eq, Structural)]
pub struct Dimension {
    pub x: u16,
    pub y: u16,
    pub width: u16,
    pub height: u16,
}

impl Dimension {
    /// The area of a view that is not laid out yet: at the first cell of
    /// the screen (terminal coordinates start at 1), with no size.
    pub fn new() -> (r: Self)
        ensures
            r == (Dimension { x: 1, y: 1, width: 0, height: 0 }),
    {
        Dimension { x: 1, y: 1, width: 0, height: 0 }
    }
}

impl DimensionSpec {
    /// The area at (`x`, `y`) of the constrained size.
    pub fn layout(&self, x: u16, y: u16) -> (r: Dimension)
        requires
            self.width is Some,
            self.height is Some,
        ensures
            r == (Dimension { x, y, width: self.width->0, height: self.height->0 }),
    {
        Dimension { x, y, width: self.width.unwrap(), height: self.height.unwrap() }
    }
}

/// One side of the size a view with a fixed or parent-filling layout asks
/// for: the parent's constraint, or the fixed amount capped by it.
pub open spec fn measured_side(param: LayoutParam, constraint: Option<u16>) -> Option<u16> {
    match param {
        LayoutParam::Absolute(v) => match constraint {
            Some(c) => Some(if v < c {
                v
            } else {
                c
            }),
            None => Some(v),
        },
        _ => constraint,
    }
}

fn measure_side(param: LayoutParam, constraint: Option<u16>) -> (r: Option<u16>)
    requires
        !(param is WrapContent),
    ensures
        r == measured_side(param, constraint),
{
    match param {
        LayoutParam::Absolute(v) => match constraint {
            Some(c) => Some(if v < c {
                v
            } else {
                c
            }),
            None => Some(v),
        },
        _ => constraint,
    }
}

/// Narrow `spec` to what a view of layout `layout` asks for. A view that
/// wraps its content measures itself and is not handled here.
pub fn measure_with_layout(layout: &LayoutParams, spec: &mut DimensionSpec)
    requires
        !(layout.width is WrapContent),
        !(layout.height is WrapContent),
    ensures
        final(spec).width == measured_side(layout.width, old(spec).width),
        final(spec).height == measured_side(layout.height, old(spec).height),
{
    spec.width = measure_side(layout.width, spec.width);
    spec.height = measure_side(layout.height, spec.height);
}

/// A view's layout must be redone when it wraps its content on a side and
/// that content changed.
pub fn is_layout_dirty(layouts: &LayoutParams, dirty: bool) -> (r: bool)
    ensures
        r == ((layouts.width is WrapContent || layouts.height is WrapContent) && dirty),
{
    match (layouts.width, layouts.height) {
        (LayoutParam::WrapContent, _) => dirty,
        (_, LayoutParam::WrapContent) => dirty,
        _ => false,
    }
}

/// A bound on a side that wraps its content, with any share of the parent
/// already counted in cells.
#[derive(Debug, Clone, Copy, PartialEq, Eq, Structural)]
pub enum ResolvedConstraint {
    /// A number of cells; as a maximum it is still capped by the parent.
    Absolute(u16),
    /// A share of the parent, counted in cells.
    Share(u16),
}

/// The bounds of a side that wraps its content.
#[derive(Debug, Clone, Copy, PartialEq, Eq, Structural)]
pub struct ResolvedConstraints {
    pub max: Option<ResolvedConstraint>,
    pub min: Option<ResolvedConstraint>,
}

pub open spec fn smaller(a: int, b: int) -> int {
    if a <= b { a } else { b }
}

pub open spec fn larger(a: int, b: int) -> int {
    if a >= b { a } else { b }
}

/// `value` raised to the minimum, then capped by the maximum, or by the
/// parent when there is no maximum.
pub open spec fn constrained(value: u16, parent: Option<u16>, c: ResolvedConstraints) -> int {
    let v = match c.min {
        Some(ResolvedConstraint::Absolute(m)) => larger(m as int, value as int),
        Some(ResolvedConstraint::Share(m)) => larger(m as int, value as int),
        None => value as int,
    };
    let cap = match c.max {
        Some(ResolvedConstraint::Absolute(m)) => match parent {
            Some(p) => smaller(m as int, p as int),
            None => m as int,
        },
        Some(ResolvedConstraint::Share(m)) => m as int,
        None => match parent {
            Some(p) => p as int,
            None => v,
        },
    };
    smaller(cap, v)
}

/// Bring the size `value` of a wrapping side within its bounds.
pub fn apply_constraints(value: u16, parent: Option<u16>, constraints: &ResolvedConstraints) -> (r: u16)
    ensures
        r == constrained(value, parent, *constraints),
{
    let v = match constraints.min {
        Some(ResolvedConstraint::Absolute(m)) | Some(ResolvedConstraint::Share(m)) => if m >= value {
            m
        } else {
            value
        },
        None => value,
    };
    let cap = match constraints.max {
        Some(ResolvedConstraint::Absolute(m)) => match parent {
            Some(p) => if m <= p {
                m
            } else {
                p
            },
            None => m,
        },
        Some(ResolvedConstraint::Share(m)) => m,
        None => match parent {
            Some(p) => p,
            None => v,
        },
    };
    if cap <= v {
        cap
    } else {
        v
    }
}

/// What a child of a linear layout asked for when measured without
/// bounds, and the bounds of its sides that wrap their content.
#[derive(Debug, Clone, Copy, PartialEq, Eq, Structural)]
pub struct ChildMeasure {
    pub measured: DimensionSpec,
    pub width_wrap: Option<ResolvedConstraints>,
    pub height_wrap: Option<ResolvedConstraints>,
}

/// The size a child needs on one side: what it measured (nothing counts
/// as zero), within its bounds when that side wraps its content.
pub open spec fn requested_side(measured: Option<u16>, wrap: Option<ResolvedConstraints>, bound: Option<u16>) -> int {
    let v: u16 = match measured {
        Some(x) => x,
        None => 0,
    };
    match wrap {
        Some(c) => constrained(v, bound, c),
        None => v as int,
    }
}

pub open spec fn requested_width(c: ChildMeasure, bound: Option<u16>) -> int {
    requested_side(c.measured.width, c.width_wrap, bound)
}

pub open spec fn requested_height(c: ChildMeasure, bound: Option<u16>) -> int {
    requested_side(c.measured.height, c.height_wrap, bound)
}

/// The least width the children need: their sum side by side, their
/// largest when stacked.
pub open spec fn least_width(o: Orientation, s: Seq<ChildMeasure>, bound: Option<u16>) -> int
    decreases s.len(),
{
    if s.len() == 0 {
        0
    } else {
        let prev = least_width(o, s.drop_last(), bound);
        let r = requested_width(s.last(), bound);
        match o {
            Orientation::Vertical => larger(prev, r),
            Orientation::Horizontal => prev + r,
        }
    }
}

/// The least height the children need: their sum when stacked, their
/// largest side by side.
pub open spec fn least_height(o: Orientation, s: Seq<ChildMeasure>, bound: Option<u16>) -> int
    decreases s.len(),
{
    if s.len() == 0 {
        0
    } else {
        let prev = least_height(o, s.drop_last(), bound);
        let r = requested_height(s.last(), bound);
        match o {
            Orientation::Vertical => prev + r,
            Orientation::Horizontal => larger(prev, r),
        }
    }
}

/// How many children measured no width.
pub open spec fn unsized_widths(s: Seq<ChildMeasure>) -> int
    decreases s.len(),
{
    if s.len() == 0 {
        0
    } else {
        unsized_widths(s.drop_last()) + if s.last().measured.width is None {
            1int
        } else {
            0int
        }
    }
}

/// How many children measured no height.
pub open spec fn unsized_heights(s: Seq<ChildMeasure>) -> int
    decreases s.len(),
{
    if s.len() == 0 {
        0
    } else {
        unsized_heights(s.drop_last()) + if s.last().measured.height is None {
            1int
        } else {
            0int
        }
    }
}

/// The space left to share among the children that measured nothing on
/// a side, each one's part.
pub open spec fn shared_part(bound: Option<u16>, least: int, count: int) -> int {
    let remaining = match bound {
        Some(m) => m - least,
        None => 0,
    };
    if count == 0 {
        0
    } else {
        remaining / count
    }
}

/// The children fit the bounds: no more of them than `u16` can count,
/// and what they need fits in `u16` and in the bounds that are set.
pub open spec fn children_fit(o: Orientation, s: Seq<ChildMeasure>, mw: Option<u16>, mh: Option<u16>) -> bool {
    &&& s.len() <= u16::MAX
    &&& least_width(o, s, mw) <= u16::MAX
    &&& least_height(o, s, mh) <= u16::MAX
    &&& (mw matches Some(m) ==> least_width(o, s, mw) <= m)
    &&& (mh matches Some(m) ==> least_height(o, s, mh) <= m)
}

proof fn lemma_least_monotone(o: Orientation, s: Seq<ChildMeasure>, i: int, mw: Option<u16>, mh: Option<u16>)
    requires
        0 <= i <= s.len(),
    ensures
        0 <= least_width(o, s.take(i), mw) <= least_width(o, s, mw),
        0 <= least_height(o, s.take(i), mh) <= least_height(o, s, mh),
        0 <= unsized_widths(s.take(i)) <= unsized_widths(s),
        0 <= unsized_heights(s.take(i)) <= unsized_heights(s),
    decreases s.len(),
{
    if s.len() == 0 {
        assert(s.take(i) =~= s);
    } else {
        lemma_least_monotone(o, s.drop_last(), s.len() - 1, mw, mh);
        assert(s.drop_last().take(s.len() - 1) =~= s.drop_last());
        if i == s.len() {
            assert(s.take(i) =~= s);
        } else {
            lemma_least_monotone(o, s.drop_last(), i, mw, mh);
            assert(s.drop_last().take(i) =~= s.take(i));
        }
    }
}

/// A linear layout being measured: its bounds, the part of the free space
/// each unsized child is offered, and the size measured so far.
#[derive(Debug, Clone, Copy, PartialEq, Eq, Structural)]
pub struct LinearMeasure {
    pub orientation: Orientation,
    pub max_width: Option<u16>,
    pub max_height: Option<u16>,
    pub split_width: Option<u16>,
    pub split_height: Option<u16>,
    pub width: u16,
    pub height: u16,
}

/// The bounds of a linear layout of layout `layouts` under the
/// constraints `width_spec` and `height_spec`.
pub fn layout_bounds(layouts: &LayoutParams, width_spec: Option<u16>, height_spec: Option<u16>) -> (r: (
    Option<u16>,
    Option<u16>,
))
    ensures
        r.0 == measured_side(layouts.width, width_spec),
        r.1 == measured_side(layouts.height, height_spec),
{
    let w = match layouts.width {
        LayoutParam::Absolute(v) => match width_spec {
            Some(c) => Some(if v < c {
                v
            } else {
                c
            }),
            None => Some(v),
        },
        _ => width_spec,
    };
    let h = match layouts.height {
        LayoutParam::Absolute(v) => match height_spec {
            Some(c) => Some(if v < c {
                v
            } else {
                c
            }),
            None => Some(v),
        },
        _ => height_spec,
    };
    (w, h)
}

/// The measure that starts once every child was measured without bounds.
pub open spec fn measure_start(o: Orientation, mw: Option<u16>, mh: Option<u16>, s: Seq<ChildMeasure>) -> LinearMeasure {
    LinearMeasure {
        orientation: o,
        max_width: mw,
        max_height: mh,
        split_width: match o {
            Orientation::Vertical => mw,
            Orientation::Horizontal => Some(shared_part(mw, least_width(o, s, mw), unsized_widths(s)) as u16),
        },
        split_height: match o {
            Orientation::Vertical => Some(shared_part(mh, least_height(o, s, mh), unsized_heights(s)) as u16),
            Orientation::Horizontal => mh,
        },
        width: 0,
        height: 0,
    }
}

/// The constraints a child is measured with the second time, given what
/// it measured the first time.
pub open spec fn offered(m: LinearMeasure, first: DimensionSpec) -> DimensionSpec {
    let w = match first.width {
        Some(w) => Some(w),
        None => m.split_width,
    };
    let h = match first.height {
        Some(h) => Some(h),
        None => m.split_height,
    };
    DimensionSpec {
        width: if m.orientation == Orientation::Horizontal && m.max_width is Some {
            Some(smaller(w->0 as int, m.max_width->0 - m.width) as u16)
        } else {
            w
        },
        height: if m.orientation == Orientation::Vertical && m.max_height is Some {
            Some(smaller(h->0 as int, m.max_height->0 - m.height) as u16)
        } else {
            h
        },
    }
}

/// The measured size on the main axis is still within the bound.
pub open spec fn within_bound(m: LinearMeasure) -> bool {
    &&& (m.orientation == Orientation::Horizontal && m.max_width is Some ==> m.width <= m.max_width->0)
    &&& (m.orientation == Orientation::Vertical && m.max_height is Some ==> m.height <= m.max_height->0)
}

/// The size measured so far, grown by a child of size `child`.
pub open spec fn grown(m: LinearMeasure, child: DimensionSpec) -> (int, int) {
    let w: int = match child.width {
        Some(x) => x as int,
        None => 0,
    };
    let h: int = match child.height {
        Some(x) => x as int,
        None => 0,
    };
    match m.orientation {
        Orientation::Vertical => (larger(m.width as int, w), m.height + h),
        Orientation::Horizontal => (m.width + w, larger(m.height as int, h)),
    }
}

/// A child keeps to what it is offered on the main axis.
pub open spec fn keeps_to(o: Orientation, child: DimensionSpec, offer: DimensionSpec) -> bool {
    match o {
        Orientation::Horizontal => offer.width matches Some(x) ==> child.width matches Some(c) && c <= x,
        Orientation::Vertical => offer.height matches Some(x) ==> child.height matches Some(c) && c <= x,
    }
}

impl LinearMeasure {
    /// The children that measured nothing on the main axis are offered a
    /// part of the free space.
    pub open spec fn wf(&self) -> bool {
        &&& (self.orientation == Orientation::Horizontal ==> self.split_width is Some)
        &&& (self.orientation == Orientation::Vertical ==> self.split_height is Some)
    }

    /// Start measuring a linear layout of orientation `orientation` and
    /// bounds `bounds`, once each child was measured without bounds.
    /// `None` when the children need more than the bounds or than `u16`
    /// can count.
    pub fn new(orientation: Orientation, bounds: (Option<u16>, Option<u16>), children: &Vec<ChildMeasure>) -> (r:
        Option<Self>)
        ensures
            r is None <==> !children_fit(orientation, children@, bounds.0, bounds.1),
            r matches Some(m) ==> m == measure_start(orientation, bounds.0, bounds.1, children@) && m.wf(),
    {
        let (mw, mh) = bounds;
        let ghost s = children@;
        if children.len() > 65535 {
            return None;
        }
        let mut least_w: u16 = 0;
        let mut least_h: u16 = 0;
        let mut count_w: u16 = 0;
        let mut count_h: u16 = 0;
        let mut i: usize = 0;
        while i < children.len()
            invariant
                s == children@,
                mw == bounds.0,
                mh == bounds.1,
                0 <= i <= s.len(),
                least_w == least_width(orientation, s.take(i as int), mw),
                least_h == least_height(orientation, s.take(i as int), mh),
                count_w == unsized_widths(s.take(i as int)),
                count_h == unsized_heights(s.take(i as int)),
                count_w <= i,
                count_h <= i,
                s.len() <= u16::MAX,
            decreases s.len() - i,
        {
            let c = children[i];
            let rw = match c.width_wrap {
                Some(k) => apply_constraints(
                    match c.measured.width {
                        Some(x) => x,
                        None => 0,
                    },
                    mw,
                    &k,
                ),
                None => match c.measured.width {
                    Some(x) => x,
                    None => 0,
                },
            };
            let rh = match c.height_wrap {
                Some(k) => apply_constraints(
                    match c.measured.height {
                        Some(x) => x,
                        None => 0,
                    },
                    mh,
                    &k,
                ),
                None => match c.measured.height {
                    Some(x) => x,
                    None => 0,
                },
            };
            assert(s.take(i + 1).drop_last() =~= s.take(i as int));
            let w64: u64 = match orientation {
                Orientation::Vertical => if least_w >= rw {
                    least_w as u64
                } else {
                    rw as u64
                },
                Orientation::Horizontal => least_w as u64 + rw as u64,
            };
            let h64: u64 = match orientation {
                Orientation::Vertical => least_h as u64 + rh as u64,
                Orientation::Horizontal => if least_h >= rh {
                    least_h as u64
                } else {
                    rh as u64
                },
            };
            assert(s.take(i + 1).last() == c);
            assert(w64 == least_width(orientation, s.take(i + 1), mw));
            assert(h64 == least_height(orientation, s.take(i + 1), mh));
            if w64 > 65535 || h64 > 65535 {
                proof {
                    lemma_least_monotone(orientation, s, i + 1, mw, mh);
                }
                return None;
            }
            least_w = w64 as u16;
            least_h = h64 as u16;
            if c.measured.width.is_none() {
                count_w = count_w + 1;
            }
            if c.measured.height.is_none() {
                count_h = count_h + 1;
            }
            proof {
                lemma_least_monotone(orientation, s, i + 1, mw, mh);
                if i + 1 < s.len() {
                    lemma_least_monotone(orientation, s, i + 2, mw, mh);
                    lemma_count_grows(s, i + 1);
                }
            }
            i = i + 1;
        }
        assert(s.take(i as int) =~= s);
        match mw {
            Some(m) => if least_w > m {
                return None;
            },
            None => {},
        }
        match mh {
            Some(m) => if least_h > m {
                return None;
            },
            None => {},
        }
        let remaining_w: u16 = match mw {
            Some(m) => m - least_w,
            None => 0,
        };
        let remaining_h: u16 = match mh {
            Some(m) => m - least_h,
            None => 0,
        };
        let split_width = match orientation {
            Orientation::Vertical => mw,
            Orientation::Horizontal => Some(
                if count_w == 0 {
                    0
                } else {
                    remaining_w / count_w
                },
            ),
        };
        let split_height = match orientation {
            Orientation::Vertical => Some(
                if count_h == 0 {
                    0
                } else {
                    remaining_h / count_h
                },
            ),
            Orientation::Horizontal => mh,
        };
        Some(LinearMeasure { orientation, max_width: mw, max_height: mh, split_width, split_height, width: 0, height: 0 })
    }

    /// The constraints to measure a child with, given what it measured
    /// without bounds; `None` when the children measured so far already
    /// passed the bound.
    pub fn child_specs(&self, first: &DimensionSpec) -> (r: Option<DimensionSpec>)
        requires
            self.wf(),
        ensures
            r is None <==> !within_bound(*self),
            r matches Some(o) ==> o == offered(*self, *first),
    {
        let w = match first.width {
            Some(w) => Some(w),
            None => self.split_width,
        };
        let h = match first.height {
            Some(h) => Some(h),
            None => self.split_height,
        };
        let mut width = w;
        let mut height = h;
        if self.orientation == Orientation::Horizontal {
            if let Some(m) = self.max_width {
                if self.width > m {
                    return None;
                }
                match w {
                    Some(x) => {
                        let room = m - self.width;
                        width = Some(if x <= room { x } else { room });
                    },
                    None => return None,
                }
            }
        }
        if self.orientation == Orientation::Vertical {
            if let Some(m) = self.max_height {
                if self.height > m {
                    return None;
                }
                match h {
                    Some(x) => {
                        let room = m - self.height;
                        height = Some(if x <= room { x } else { room });
                    },
                    None => return None,
                }
            }
        }
        Some(DimensionSpec { width, height })
    }

    /// Grow the measured size by a child that measured `child`. Returns
    /// `false`, and leaves the measure as it is, when the size would not
    /// fit in `u16`. A child that keeps to what it was offered keeps the
    /// size within the bound.
    pub fn add_child(&mut self, child: &DimensionSpec) -> (ok: bool)
        ensures
            ok <==> grown(*old(self), *child).0 <= u16::MAX && grown(*old(self), *child).1 <= u16::MAX,
            ok ==> *final(self) == (LinearMeasure {
                width: grown(*old(self), *child).0 as u16,
                height: grown(*old(self), *child).1 as u16,
                ..*old(self)
            }),
            !ok ==> *final(self) == *old(self),
            old(self).wf() ==> final(self).wf(),
            ok && within_bound(*old(self)) && keeps_to(old(self).orientation, *child, offered(*old(self), *child))
                ==> within_bound(*final(self)),
    {
        let w: u64 = match child.width {
            Some(x) => x as u64,
            None => 0,
        };
        let h: u64 = match child.height {
            Some(x) => x as u64,
            None => 0,
        };
        let (nw, nh): (u64, u64) = match self.orientation {
            Orientation::Vertical => (if self.width as u64 >= w { self.width as u64 } else { w }, self.height as u64 + h),
            Orientation::Horizontal => (self.width as u64 + w, if self.height as u64 >= h { self.height as u64 } else { h }),
        };
        if nw > 65535 || nh > 65535 {
            return false;
        }
        self.width = nw as u16;
        self.height = nh as u16;
        true
    }

    /// The size measured.
    pub fn measured(&self) -> (r: DimensionSpec)
        ensures
            r == (DimensionSpec { width: Some(self.width), height: Some(self.height) }),
    {
        DimensionSpec { width: Some(self.width), height: Some(self.height) }
    }
}

/// The measure after children of sizes `finals`, in order.
pub open spec fn after_children(m: LinearMeasure, finals: Seq<DimensionSpec>) -> LinearMeasure
    decreases finals.len(),
{
    if finals.len() == 0 {
        m
    } else {
        let prev = after_children(m, finals.drop_last());
        let g = grown(prev, finals.last());
        LinearMeasure { width: g.0 as u16, height: g.1 as u16, ..prev }
    }
}

/// A linear layout never measures more than its bound on its main axis
/// when each child, measured with what it is offered, keeps to it.
pub proof fn lemma_measure_within_bound(m: LinearMeasure, firsts: Seq<DimensionSpec>, finals: Seq<DimensionSpec>)
    requires
        within_bound(m),
        firsts.len() == finals.len(),
        forall|k: int|
            0 <= k < finals.len() ==> keeps_to(
                m.orientation,
                #[trigger] finals[k],
                offered(after_children(m, finals.take(k)), firsts[k]),
            ),
    ensures
        within_bound(after_children(m, finals)),
        after_children(m, finals).orientation == m.orientation,
        after_children(m, finals).max_width == m.max_width,
        after_children(m, finals).max_height == m.max_height,
    decreases finals.len(),
{
    if finals.len() > 0 {
        let n = finals.len() - 1;
        let fd = finals.drop_last();
        assert forall|k: int| 0 <= k < fd.len() implies keeps_to(
            m.orientation,
            #[trigger] fd[k],
            offered(after_children(m, fd.take(k)), firsts.drop_last()[k]),
        ) by {
            assert(fd.take(k) =~= finals.take(k));
            assert(fd[k] == finals[k]);
        }
        lemma_measure_within_bound(m, firsts.drop_last(), fd);
        assert(finals.take(n) =~= fd);
        assert(keeps_to(m.orientation, finals[n], offered(after_children(m, fd), firsts[n])));
    }
}

proof fn lemma_count_grows(s: Seq<ChildMeasure>, i: int)
    requires
        0 <= i < s.len(),
    ensures
        unsized_widths(s.take(i + 1)) <= unsized_widths(s.take(i)) + 1,
        unsized_heights(s.take(i + 1)) <= unsized_heights(s.take(i)) + 1,
{
    assert(s.take(i + 1).drop_last() =~= s.take(i));
}

} // verus!
