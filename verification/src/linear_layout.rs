//! How a linear layout shares its space between its children: fixed-size
//! children get what they ask for, expanding children split the rest by
//! weight.

use vstd::prelude::*;
use crate::layout::{
    dim_max, dim_sum, abs_sum, dim_le, lemma_dim_max_is_largest, lemma_dim_sum_adds, Dimensions, Orientation, RequestedDimension, RequestedDimensions,
};

verus! {

/// What a child of a linear layout asked for, and its share weight.
#[derive(Debug, Clone, Copy, PartialEq, Eq, Structural)]
pub struct ChildRequest {
    pub requested: RequestedDimensions,
    pub weight: u16,
}

/// The request along the layout's axis.
pub open spec fn main_req(c: ChildRequest, o: Orientation) -> RequestedDimension {
    match o {
        Orientation::Vertical => c.requested.height,
        Orientation::Horizontal => c.requested.width,
    }
}

/// The request across the layout's axis.
pub open spec fn cross_req(c: ChildRequest, o: Orientation) -> RequestedDimension {
    match o {
        Orientation::Vertical => c.requested.width,
        Orientation::Horizontal => c.requested.height,
    }
}

/// Sum of what fixed-size children ask for along the axis.
pub open spec fn fixed_total(s: Seq<ChildRequest>, o: Orientation) -> int
    decreases s.len(),
{
    if s.len() == 0 {
        0
    } else {
        fixed_total(s.drop_last(), o) + match main_req(s.last(), o) {
            RequestedDimension::Absolute(x) => x as int,
            RequestedDimension::ExpandMax => 0,
        }
    }
}

/// Sum of the weights of the expanding children.
pub open spec fn weight_total(s: Seq<ChildRequest>, o: Orientation) -> int
    decreases s.len(),
{
    if s.len() == 0 {
        0
    } else {
        weight_total(s.drop_last(), o) + match main_req(s.last(), o) {
            RequestedDimension::Absolute(_) => 0,
            RequestedDimension::ExpandMax => s.last().weight as int,
        }
    }
}

/// The cross size shared by all children: the parent's when one expands
/// (the last such decides), else the largest request after it.
pub open spec fn cross_size(s: Seq<ChildRequest>, o: Orientation, full: int) -> int
    decreases s.len(),
{
    if s.len() == 0 {
        0
    } else {
        let acc = cross_size(s.drop_last(), o, full);
        match cross_req(s.last(), o) {
            RequestedDimension::ExpandMax => full,
            RequestedDimension::Absolute(w) => if acc >= w {
                acc
            } else {
                w as int
            },
        }
    }
}

/// The size of one child along the axis, given the free space and the
/// total weight of the expanding children.
pub open spec fn child_main(c: ChildRequest, o: Orientation, free: int, total: int) -> int {
    match main_req(c, o) {
        RequestedDimension::Absolute(x) => x as int,
        RequestedDimension::ExpandMax => (free * c.weight) / total,
    }
}

/// Space used along the axis by the children of `s`.
pub open spec fn used_total(s: Seq<ChildRequest>, o: Orientation, free: int, total: int) -> int
    decreases s.len(),
{
    if s.len() == 0 {
        0
    } else {
        used_total(s.drop_last(), o, free, total) + child_main(s.last(), o, free, total)
    }
}

pub open spec fn main_start(d: Dimensions, o: Orientation) -> int {
    match o {
        Orientation::Vertical => d.top as int,
        Orientation::Horizontal => d.left as int,
    }
}

pub open spec fn main_size(d: Dimensions, o: Orientation) -> int {
    match o {
        Orientation::Vertical => d.height as int,
        Orientation::Horizontal => d.width as int,
    }
}

pub open spec fn cross_full(d: Dimensions, o: Orientation) -> int {
    match o {
        Orientation::Vertical => d.width as int,
        Orientation::Horizontal => d.height as int,
    }
}

/// Space left along the axis once fixed-size children are served.
pub open spec fn free_space(s: Seq<ChildRequest>, o: Orientation, d: Dimensions) -> int {
    if main_size(d, o) >= fixed_total(s, o) {
        main_size(d, o) - fixed_total(s, o)
    } else {
        0
    }
}

/// The dimensions given to child `k`.
pub open spec fn child_dimensions(s: Seq<ChildRequest>, o: Orientation, d: Dimensions, k: int) -> Dimensions {
    let free = free_space(s, o, d);
    let total = weight_total(s, o);
    let offset = main_start(d, o) + used_total(s.take(k), o, free, total);
    let size = child_main(s[k], o, free, total);
    let cross = cross_size(s, o, cross_full(d, o));
    match o {
        Orientation::Vertical => Dimensions {
            top: offset as u16,
            left: d.left,
            width: cross as u16,
            height: size as u16,
        },
        Orientation::Horizontal => Dimensions {
            top: d.top,
            left: offset as u16,
            height: cross as u16,
            width: size as u16,
        },
    }
}

/// Laying out stays within `u16` and the fixed-size children fit.
pub open spec fn layout_ok(s: Seq<ChildRequest>, o: Orientation, d: Dimensions) -> bool {
    let free = free_space(s, o, d);
    let total = weight_total(s, o);
    &&& fixed_total(s, o) <= main_size(d, o)
    &&& weight_total(s, o) <= u16::MAX
    &&& main_start(d, o) + main_size(d, o) <= u16::MAX
    &&& forall|k: int|
        0 <= k < s.len() && (#[trigger] main_req(s[k], o)) is ExpandMax ==> total > 0 && free * s[k].weight
            <= u16::MAX
}

pub proof fn lemma_fixed_prefix(s: Seq<ChildRequest>, o: Orientation, i: int)
    requires
        0 <= i <= s.len(),
    ensures
        0 <= fixed_total(s.take(i), o) <= fixed_total(s, o),
        0 <= weight_total(s.take(i), o) <= weight_total(s, o),
    decreases s.len(),
{
    if s.len() > 0 {
        if i < s.len() {
            assert(s.drop_last().take(i) =~= s.take(i));
            lemma_fixed_prefix(s.drop_last(), o, i);
        } else {
            assert(s.take(i) =~= s);
            lemma_fixed_prefix(s.drop_last(), o, s.len() - 1);
            assert(s.drop_last().take(s.len() - 1) =~= s.drop_last());
        }
    } else {
        assert(s.take(i) =~= s);
    }
}

/// The size a child is given across the layout's axis.
pub open spec fn cross_given(d: Dimensions, o: Orientation) -> int {
    match o {
        Orientation::Vertical => d.width as int,
        Orientation::Horizontal => d.height as int,
    }
}

proof fn lemma_cross_size_facts(s: Seq<ChildRequest>, o: Orientation, full: int)
    requires
        0 <= full <= u16::MAX,
    ensures
        0 <= cross_size(s, o, full) <= u16::MAX,
        (forall|j: int| 0 <= j < s.len() ==> (#[trigger] cross_req(s[j], o)) is Absolute) ==> {
            &&& forall|j: int|
                0 <= j < s.len() ==> (#[trigger] cross_req(s[j], o) matches RequestedDimension::Absolute(w) && w
                    <= cross_size(s, o, full))
            &&& s.len() > 0 ==> exists|j: int|
                0 <= j < s.len() && (#[trigger] cross_req(s[j], o) matches RequestedDimension::Absolute(w) && w
                    == cross_size(s, o, full))
        },
        (exists|j: int| 0 <= j < s.len() && (#[trigger] cross_req(s[j], o)) is ExpandMax) ==> cross_size(
            s,
            o,
            full,
        ) >= full,
    decreases s.len(),
{
    if s.len() > 0 {
        let p = s.drop_last();
        let n = s.len() - 1;
        lemma_cross_size_facts(p, o, full);
        assert forall|j: int| 0 <= j < p.len() implies #[trigger] cross_req(p[j], o) == cross_req(s[j], o) by {
            assert(p[j] == s[j]);
        }
        if forall|j: int| 0 <= j < s.len() ==> (#[trigger] cross_req(s[j], o)) is Absolute {
            assert forall|j: int| 0 <= j < p.len() implies (#[trigger] cross_req(p[j], o)) is Absolute by {
                assert(cross_req(p[j], o) == cross_req(s[j], o));
            }
            assert forall|j: int| 0 <= j < s.len() implies (#[trigger] cross_req(s[j], o) matches RequestedDimension::Absolute(w) && w
                <= cross_size(s, o, full)) by {
                if j < n {
                    assert(cross_req(p[j], o) == cross_req(s[j], o));
                }
            }
            let w = cross_req(s[n], o)->Absolute_0;
            if p.len() > 0 && cross_size(p, o, full) >= w {
                let j = choose|j: int|
                    0 <= j < p.len() && (#[trigger] cross_req(p[j], o) matches RequestedDimension::Absolute(w) && w
                        == cross_size(p, o, full));
                assert(cross_req(p[j], o) == cross_req(s[j], o));
            } else {
                assert(cross_req(s[n], o) matches RequestedDimension::Absolute(x) && x == cross_size(s, o, full));
            }
        }
        if exists|j: int| 0 <= j < s.len() && (#[trigger] cross_req(s[j], o)) is ExpandMax {
            let j = choose|j: int| 0 <= j < s.len() && (#[trigger] cross_req(s[j], o)) is ExpandMax;
            if j < n {
                assert(cross_req(p[j], o) == cross_req(s[j], o));
            }
        }
    }
}

/// When no child expands across the layout's axis, every child is given
/// across it the largest of the children's requests: at least what each
/// asked for, and exactly what one of them asked for.
pub proof fn lemma_cross_is_largest_request(s: Seq<ChildRequest>, o: Orientation, d: Dimensions, k: int)
    requires
        0 <= k < s.len(),
        forall|j: int| 0 <= j < s.len() ==> (#[trigger] cross_req(s[j], o)) is Absolute,
    ensures
        forall|j: int|
            0 <= j < s.len() ==> (#[trigger] cross_req(s[j], o) matches RequestedDimension::Absolute(w) && w
                <= cross_given(child_dimensions(s, o, d, k), o)),
        exists|j: int|
            0 <= j < s.len() && (#[trigger] cross_req(s[j], o) matches RequestedDimension::Absolute(w) && w
                == cross_given(child_dimensions(s, o, d, k), o)),
{
    lemma_cross_size_facts(s, o, cross_full(d, o));
}

/// When a child expands across the layout's axis, every child is given at
/// least the layout's whole size across it.
pub proof fn lemma_cross_fills_when_one_expands(s: Seq<ChildRequest>, o: Orientation, d: Dimensions, k: int, e: int)
    requires
        0 <= k < s.len(),
        0 <= e < s.len(),
        cross_req(s[e], o) is ExpandMax,
    ensures
        cross_given(child_dimensions(s, o, d, k), o) >= cross_full(d, o),
{
    lemma_cross_size_facts(s, o, cross_full(d, o));
}

/// Where a child starts along the layout's axis.
pub open spec fn main_pos_given(d: Dimensions, o: Orientation) -> int {
    match o {
        Orientation::Vertical => d.top as int,
        Orientation::Horizontal => d.left as int,
    }
}

/// The size a child is given along the layout's axis.
pub open spec fn main_given(d: Dimensions, o: Orientation) -> int {
    match o {
        Orientation::Vertical => d.height as int,
        Orientation::Horizontal => d.width as int,
    }
}

/// Children are stacked along the axis from the layout's start, each one
/// right after the previous, and the last ends within the layout; across
/// the axis each starts at the layout's edge. A fixed-size child gets what
/// it asked for; an expanding child gets its weight's share, rounded down,
/// of the space the fixed-size children leave.
pub proof fn lemma_children_stacked(s: Seq<ChildRequest>, o: Orientation, d: Dimensions, k: int)
    requires
        layout_ok(s, o, d),
        0 <= k < s.len(),
    ensures
        k == 0 ==> main_pos_given(child_dimensions(s, o, d, k), o) == main_start(d, o),
        k > 0 ==> main_pos_given(child_dimensions(s, o, d, k), o) == main_pos_given(
            child_dimensions(s, o, d, k - 1),
            o,
        ) + main_given(child_dimensions(s, o, d, k - 1), o),
        main_pos_given(child_dimensions(s, o, d, k), o) + main_given(child_dimensions(s, o, d, k), o)
            <= main_start(d, o) + main_size(d, o),
        o is Vertical ==> child_dimensions(s, o, d, k).left == d.left,
        o is Horizontal ==> child_dimensions(s, o, d, k).top == d.top,
        main_req(s[k], o) matches RequestedDimension::Absolute(x) ==> main_given(child_dimensions(s, o, d, k), o)
            == x,
        main_req(s[k], o) is ExpandMax ==> ({
            let size = main_given(child_dimensions(s, o, d, k), o);
            let free = main_size(d, o) - fixed_total(s, o);
            let total = weight_total(s, o);
            size * total <= free * s[k].weight < (size + 1) * total
        }),
{
    let free = free_space(s, o, d);
    let total = weight_total(s, o);
    assert(split_defined(s, o));
    lemma_children_fit(s, o, d);
    lemma_used_prefix(s, o, free, total, k);
    lemma_used_prefix(s, o, free, total, k + 1);
    assert(s.take(k + 1).drop_last() =~= s.take(k));
    assert(s.take(k + 1).last() == s[k]);
    let u0 = used_total(s.take(k), o, free, total);
    let u1 = used_total(s.take(k + 1), o, free, total);
    assert(u1 == u0 + child_main(s[k], o, free, total));
    if k > 0 {
        lemma_used_prefix(s, o, free, total, k - 1);
        assert(s.take(k).drop_last() =~= s.take(k - 1));
        assert(s.take(k).last() == s[k - 1]);
    }
    if main_req(s[k], o) is ExpandMax {
        let w = s[k].weight as int;
        let size = child_main(s[k], o, free, total);
        assert(total > 0);
        assert(size == (free * w) / total);
        assert(size * total <= free * w < (size + 1) * total) by (nonlinear_arith)
            requires
                size == (free * w) / total,
                total > 0,
        ;
    }
}

/// Each expanding child receives at most its weight's share of the free
/// space, so together they receive at most their weights' share.
pub proof fn lemma_used_bound(s: Seq<ChildRequest>, o: Orientation, free: int, total: int)
    requires
        free >= 0,
        total > 0,
    ensures
        used_total(s, o, free, total) * total <= fixed_total(s, o) * total + free * weight_total(s, o),
        used_total(s, o, free, total) >= fixed_total(s, o),
    decreases s.len(),
{
    if s.len() > 0 {
        let p = s.drop_last();
        let c = s.last();
        lemma_used_bound(p, o, free, total);
        match main_req(c, o) {
            RequestedDimension::Absolute(x) => {
                assert((used_total(p, o, free, total) + x) * total == used_total(p, o, free, total)
                    * total + x * total) by (nonlinear_arith);
                assert((fixed_total(p, o) + x) * total == fixed_total(p, o) * total + x * total)
                    by (nonlinear_arith);
            },
            RequestedDimension::ExpandMax => {
                let w = c.weight as int;
                let q = (free * w) / total;
                assert(q * total <= free * w) by (nonlinear_arith)
                    requires
                        q == (free * w) / total,
                        total > 0,
                ;
                assert(q >= 0) by (nonlinear_arith)
                    requires
                        q == (free * w) / total,
                        total > 0,
                        free >= 0,
                        w >= 0,
                ;
                assert((used_total(p, o, free, total) + q) * total == used_total(p, o, free, total)
                    * total + q * total) by (nonlinear_arith);
                assert(free * (weight_total(p, o) + w) == free * weight_total(p, o) + free * w)
                    by (nonlinear_arith);
            },
        }
    }
}

/// Every expanding child can be given a share of the free space.
pub open spec fn split_defined(s: Seq<ChildRequest>, o: Orientation) -> bool {
    forall|k: int| 0 <= k < s.len() && (#[trigger] main_req(s[k], o)) is ExpandMax ==> weight_total(s, o) > 0
}

/// The children of a linear layout never overflow it when its fixed-size
/// children fit: the space used along the axis is at most the layout's.
pub proof fn lemma_children_fit(s: Seq<ChildRequest>, o: Orientation, d: Dimensions)
    requires
        fixed_total(s, o) <= main_size(d, o),
        split_defined(s, o),
    ensures
        used_total(s, o, free_space(s, o, d), weight_total(s, o)) <= main_size(d, o),
    decreases s.len(),
{
    let free = free_space(s, o, d);
    let total = weight_total(s, o);
    if total > 0 {
        lemma_used_bound(s, o, free, total);
        let u = used_total(s, o, free, total);
        let f = fixed_total(s, o);
        assert(u * total <= f * total + free * total);
        assert(u <= f + free) by (nonlinear_arith)
            requires
                u * total <= f * total + free * total,
                total > 0,
        ;
    } else {
        lemma_weight_nonneg(s, o);
        assert forall|k: int| 0 <= k < s.len() implies (#[trigger] main_req(s[k], o)) is Absolute by {
            if main_req(s[k], o) is ExpandMax {
                assert(weight_total(s, o) > 0);
            }
        }
        lemma_used_no_expand(s, o, free);
    }
}

/// Without expanding children, the used space is the fixed children's.
proof fn lemma_used_no_expand(s: Seq<ChildRequest>, o: Orientation, free: int)
    requires
        forall|k: int| 0 <= k < s.len() ==> (#[trigger] main_req(s[k], o)) is Absolute,
    ensures
        used_total(s, o, free, 0) == fixed_total(s, o),
    decreases s.len(),
{
    if s.len() > 0 {
        assert(main_req(s[s.len() - 1], o) is Absolute);
        assert forall|k: int| 0 <= k < s.drop_last().len() implies (#[trigger] main_req(s.drop_last()[k], o)) is Absolute by {
            assert(s.drop_last()[k] == s[k]);
            assert(main_req(s[k], o) is Absolute);
        }
        lemma_used_no_expand(s.drop_last(), o, free);
    }
}

proof fn lemma_weight_nonneg(s: Seq<ChildRequest>, o: Orientation)
    ensures
        weight_total(s, o) >= 0,
        fixed_total(s, o) >= 0,
    decreases s.len(),
{
    if s.len() > 0 {
        lemma_weight_nonneg(s.drop_last(), o);
    }
}

/// Used space only grows as children are added.
proof fn lemma_used_prefix(s: Seq<ChildRequest>, o: Orientation, free: int, total: int, i: int)
    requires
        0 <= i <= s.len(),
        free >= 0,
        forall|k: int| 0 <= k < s.len() && (#[trigger] main_req(s[k], o)) is ExpandMax ==> total > 0,
    ensures
        0 <= used_total(s.take(i), o, free, total) <= used_total(s, o, free, total),
    decreases s.len(),
{
    if s.len() > 0 {
        let c = s.last();
        assert(child_main(c, o, free, total) >= 0) by {
            if main_req(c, o) is ExpandMax {
                assert(main_req(s[s.len() - 1], o) is ExpandMax);
                let w = c.weight as int;
                assert((free * w) / total >= 0) by (nonlinear_arith)
                    requires
                        free >= 0,
                        w >= 0,
                        total > 0,
                ;
            }
        }
        assert forall|k: int| 0 <= k < s.drop_last().len() && (#[trigger] main_req(s.drop_last()[k], o)) is ExpandMax implies total > 0 by {
            assert(s.drop_last()[k] == s[k]);
        }
        if i < s.len() {
            assert(s.drop_last().take(i) =~= s.take(i));
            lemma_used_prefix(s.drop_last(), o, free, total, i);
        } else {
            assert(s.take(i) =~= s);
            lemma_used_prefix(s.drop_last(), o, free, total, s.len() - 1);
            assert(s.drop_last().take(s.len() - 1) =~= s.drop_last());
        }
    } else {
        assert(s.take(i) =~= s);
    }
}

fn main_of(c: &ChildRequest, o: Orientation) -> (r: RequestedDimension)
    ensures
        r == main_req(*c, o),
{
    match o {
        Orientation::Vertical => c.requested.height,
        Orientation::Horizontal => c.requested.width,
    }
}

fn cross_of(c: &ChildRequest, o: Orientation) -> (r: RequestedDimension)
    ensures
        r == cross_req(*c, o),
{
    match o {
        Orientation::Vertical => c.requested.width,
        Orientation::Horizontal => c.requested.height,
    }
}

/// The dimensions of every child of a linear layout with orientation `o`
/// placed in `dimensions`: children are stacked along the axis from the
/// layout's start, fixed-size children get their request, expanding
/// children share the free space by weight, and all get the same cross size.
pub fn layout_children(o: Orientation, dimensions: &Dimensions, children: &Vec<ChildRequest>) -> (r: Vec<Dimensions>)
    requires
        layout_ok(children@, o, *dimensions),
    ensures
        r.len() == children.len(),
        forall|k: int| 0 <= k < r.len() ==> r[k] == child_dimensions(children@, o, *dimensions, k),
        used_total(
            children@,
            o,
            free_space(children@, o, *dimensions),
            weight_total(children@, o),
        ) <= main_size(*dimensions, o),
{
    let ghost s = children@;
    let full: u16 = match o {
        Orientation::Vertical => dimensions.width,
        Orientation::Horizontal => dimensions.height,
    };
    let size: u16 = match o {
        Orientation::Vertical => dimensions.height,
        Orientation::Horizontal => dimensions.width,
    };
    let start: u16 = match o {
        Orientation::Vertical => dimensions.top,
        Orientation::Horizontal => dimensions.left,
    };
    let mut cross: u16 = 0;
    let mut fixed: u16 = 0;
    let mut total: u16 = 0;
    let n = children.len();
    for i in 0..n
        invariant
            n == children.len(),
            s == children@,
            layout_ok(s, o, *dimensions),
            size as int == main_size(*dimensions, o),
            full as int == cross_full(*dimensions, o),
            cross as int == cross_size(s.take(i as int), o, full as int),
            fixed as int == fixed_total(s.take(i as int), o),
            total as int == weight_total(s.take(i as int), o),
    {
        proof {
            assert(s.take(i + 1).drop_last() =~= s.take(i as int));
            lemma_fixed_prefix(s, o, i + 1);
        }
        let c = &children[i];
        match main_of(c, o) {
            RequestedDimension::ExpandMax => total = total + c.weight,
            RequestedDimension::Absolute(x) => fixed = fixed + x,
        }
        match cross_of(c, o) {
            RequestedDimension::ExpandMax => cross = full,
            RequestedDimension::Absolute(w) => if w > cross {
                cross = w;
            },
        }
    }
    proof {
        assert(s.take(n as int) =~= s);
        lemma_children_fit(s, o, *dimensions);
    }
    let free: u16 = if size >= fixed {
        size - fixed
    } else {
        0
    };
    let ghost g_free = free as int;
    let ghost g_total = total as int;
    let mut out: Vec<Dimensions> = Vec::new();
    let mut offset: u16 = start;
    for i in 0..n
        invariant
            n == children.len(),
            s == children@,
            layout_ok(s, o, *dimensions),
            g_free == free_space(s, o, *dimensions),
            g_total == weight_total(s, o),
            g_free == free as int,
            g_total == total as int,
            start as int == main_start(*dimensions, o),
            size as int == main_size(*dimensions, o),
            cross as int == cross_size(s, o, cross_full(*dimensions, o)),
            used_total(s, o, g_free, g_total) <= size,
            offset as int == start + used_total(s.take(i as int), o, g_free, g_total),
            out.len() == i,
            forall|k: int| 0 <= k < i ==> out[k] == child_dimensions(s, o, *dimensions, k),
    {
        proof {
            assert(s.take(i + 1).drop_last() =~= s.take(i as int));
            lemma_used_prefix(s, o, g_free, g_total, i + 1);
        }
        let c = &children[i];
        let child_size: u16 = match main_of(c, o) {
            RequestedDimension::Absolute(x) => x,
            RequestedDimension::ExpandMax => {
                assert(main_req(s[i as int], o) is ExpandMax);
                let prod: u16 = free * c.weight;
                prod / total
            },
        };
        let d = match o {
            Orientation::Vertical => Dimensions {
                top: offset,
                left: dimensions.left,
                width: cross,
                height: child_size,
            },
            Orientation::Horizontal => Dimensions {
                top: dimensions.top,
                left: offset,
                height: cross,
                width: child_size,
            },
        };
        out.push(d);
        offset = offset + child_size;
    }
    out
}

/// What a linear layout asks for: along its axis the sum of its children's
/// requests, across it the largest.
pub open spec fn combined_request(o: Orientation, reqs: Seq<RequestedDimensions>) -> RequestedDimensions {
    let widths = reqs.map_values(|r: RequestedDimensions| r.width);
    let heights = reqs.map_values(|r: RequestedDimensions| r.height);
    match o {
        Orientation::Horizontal => RequestedDimensions { width: dim_sum(widths), height: dim_max(heights) },
        Orientation::Vertical => RequestedDimensions { width: dim_max(widths), height: dim_sum(heights) },
    }
}

/// A request along the axis of orientation `o`.
pub open spec fn along(r: RequestedDimensions, o: Orientation) -> RequestedDimension {
    match o {
        Orientation::Vertical => r.height,
        Orientation::Horizontal => r.width,
    }
}

/// A request across the axis of orientation `o`.
pub open spec fn across(r: RequestedDimensions, o: Orientation) -> RequestedDimension {
    match o {
        Orientation::Vertical => r.width,
        Orientation::Horizontal => r.height,
    }
}

/// A linear layout asks, across its axis, for what its widest child asks
/// (at least every child's request, and one of them), and along its axis it
/// expands exactly when a child does, else asks for the sum of the
/// children's amounts.
pub proof fn lemma_layout_request_covers_children(o: Orientation, reqs: Seq<RequestedDimensions>)
    ensures
        forall|k: int| 0 <= k < reqs.len() ==> dim_le(#[trigger] across(reqs[k], o), across(combined_request(o, reqs), o)),
        reqs.len() > 0 ==> exists|k: int| 0 <= k < reqs.len() && #[trigger] across(reqs[k], o) == across(
            combined_request(o, reqs),
            o,
        ),
        (along(combined_request(o, reqs), o) is ExpandMax) == (exists|k: int|
            0 <= k < reqs.len() && (#[trigger] along(reqs[k], o)) is ExpandMax),
        along(combined_request(o, reqs), o) is Absolute && abs_sum(reqs.map_values(|r: RequestedDimensions| along(r, o)))
            <= u16::MAX ==> along(combined_request(o, reqs), o) == RequestedDimension::Absolute(
            abs_sum(reqs.map_values(|r: RequestedDimensions| along(r, o))) as u16,
        ),
{
    let cs = reqs.map_values(|r: RequestedDimensions| across(r, o));
    let ls = reqs.map_values(|r: RequestedDimensions| along(r, o));
    let widths = reqs.map_values(|r: RequestedDimensions| r.width);
    let heights = reqs.map_values(|r: RequestedDimensions| r.height);
    match o {
        Orientation::Vertical => {
            assert(cs =~= widths);
            assert(ls =~= heights);
        },
        Orientation::Horizontal => {
            assert(cs =~= heights);
            assert(ls =~= widths);
        },
    }
    assert(across(combined_request(o, reqs), o) == dim_max(cs));
    assert(along(combined_request(o, reqs), o) == dim_sum(ls));
    lemma_dim_max_is_largest(cs);
    lemma_dim_sum_adds(ls);
    assert forall|k: int| 0 <= k < reqs.len() implies dim_le(#[trigger] across(reqs[k], o), across(combined_request(o, reqs), o)) by {
        assert(cs[k] == across(reqs[k], o));
    }
    if reqs.len() > 0 {
        let k = choose|k: int| 0 <= k < cs.len() && #[trigger] cs[k] == dim_max(cs);
        assert(across(reqs[k], o) == cs[k]);
    }
    if exists|k: int| 0 <= k < reqs.len() && (#[trigger] along(reqs[k], o)) is ExpandMax {
        let k = choose|k: int| 0 <= k < reqs.len() && (#[trigger] along(reqs[k], o)) is ExpandMax;
        assert(ls[k] == along(reqs[k], o));
    }
    if exists|k: int| 0 <= k < ls.len() && (#[trigger] ls[k]) is ExpandMax {
        let k = choose|k: int| 0 <= k < ls.len() && (#[trigger] ls[k]) is ExpandMax;
        assert(ls[k] == along(reqs[k], o));
    }
}

/// Combine the children's requests into the layout's own request.
pub fn measure_children(o: Orientation, reqs: &Vec<RequestedDimensions>) -> (r: RequestedDimensions)
    requires
        o is Horizontal ==> abs_sum(reqs@.map_values(|r: RequestedDimensions| r.width)) <= u16::MAX,
        o is Vertical ==> abs_sum(reqs@.map_values(|r: RequestedDimensions| r.height)) <= u16::MAX,
    ensures
        r == combined_request(o, reqs@),
{
    let mut widths: Vec<RequestedDimension> = Vec::new();
    let mut heights: Vec<RequestedDimension> = Vec::new();
    for i in 0..reqs.len()
        invariant
            widths@ == reqs@.map_values(|r: RequestedDimensions| r.width).take(i as int),
            heights@ == reqs@.map_values(|r: RequestedDimensions| r.height).take(i as int),
    {
        widths.push(reqs[i].width);
        heights.push(reqs[i].height);
        assert(widths@ =~= reqs@.map_values(|r: RequestedDimensions| r.width).take(i + 1));
        assert(heights@ =~= reqs@.map_values(|r: RequestedDimensions| r.height).take(i + 1));
    }
    assert(widths@ =~= reqs@.map_values(|r: RequestedDimensions| r.width));
    assert(heights@ =~= reqs@.map_values(|r: RequestedDimensions| r.height));
    match o {
        Orientation::Horizontal => RequestedDimensions {
            width: RequestedDimension::sum(&widths),
            height: RequestedDimension::max(&heights),
        },
        Orientation::Vertical => RequestedDimensions {
            width: RequestedDimension::max(&widths),
            height: RequestedDimension::sum(&heights),
        },
    }
}

} // verus!
