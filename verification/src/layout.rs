//! Measure and layout arithmetic shared by all views: requested and
//! definitive dimensions, and how a linear layout splits its space.

use vstd::prelude::*;

verus! {

/// Position of the terminal cursor.
#[derive(Copy, Clone, Debug, Eq, PartialEq, Structural)]
pub struct CursorPos {
    pub top: u16,
    pub left: u16,
}

impl Default for CursorPos {
    fn default() -> (r: Self)
        ensures
            r.top == 0 && r.left == 0,
    {
        CursorPos { top: 0, left: 0 }
    }
}

impl CursorPos {
    /// The position at column `x`, row `y`.
    pub fn from_xy(x: u16, y: u16) -> (r: Self)
        ensures
            r.left == x && r.top == y,
    {
        CursorPos { top: y, left: x }
    }
}

#[derive(Debug, Copy, Clone, Eq, PartialEq, Structural)]
pub enum CursorStyle {
    SteadyBar,
    SteadyBlock,
}

impl Default for CursorStyle {
    fn default() -> (r: Self)
        ensures
            r == CursorStyle::SteadyBar,
    {
        CursorStyle::SteadyBar
    }
}

#[derive(Debug, Copy, Clone, PartialEq, Eq, Structural)]
pub enum LayoutParam {
    MatchParent,
    WrapContent,
    Absolute(u16),
}

#[derive(Debug, Copy, Clone, PartialEq, Eq, Structural)]
pub struct LayoutParams {
    pub width: LayoutParam,
    pub height: LayoutParam,
}

#[derive(Debug, Copy, Clone, PartialEq, Eq, Structural)]
pub enum MeasureSpec {
    Unspecified,
    AtMost(u16),
}

impl Default for MeasureSpec {
    fn default() -> (r: Self)
        ensures
            r == MeasureSpec::Unspecified,
    {
        MeasureSpec::Unspecified
    }
}

#[derive(Debug, Copy, Clone, PartialEq, Eq, Structural)]
pub struct MeasureSpecs {
    pub width: MeasureSpec,
    pub height: MeasureSpec,
}

impl Default for MeasureSpecs {
    fn default() -> (r: Self)
        ensures
            r.width == MeasureSpec::Unspecified && r.height == MeasureSpec::Unspecified,
    {
        MeasureSpecs { width: MeasureSpec::Unspecified, height: MeasureSpec::Unspecified }
    }
}

impl MeasureSpecs {
    /// Constraints that bound a child by the given dimensions.
    pub fn from_dimensions(dimensions: &Dimensions) -> (r: Self)
        ensures
            r.width == MeasureSpec::AtMost(dimensions.width),
            r.height == MeasureSpec::AtMost(dimensions.height),
    {
        MeasureSpecs {
            width: MeasureSpec::AtMost(dimensions.width),
            height: MeasureSpec::AtMost(dimensions.height),
        }
    }
}

/// A size a view asks for: an exact amount, or as much as it is given.
/// `ExpandMax` is larger than any absolute amount.
#[derive(Debug, Clone, Copy, PartialEq, Eq, PartialOrd, Ord, Structural)]
pub enum RequestedDimension {
    Absolute(u16),
    ExpandMax,
}

/// The order on requested sizes: absolutes by amount, `ExpandMax` above all.
pub open spec fn dim_le(a: RequestedDimension, b: RequestedDimension) -> bool {
    match (a, b) {
        (_, RequestedDimension::ExpandMax) => true,
        (RequestedDimension::ExpandMax, RequestedDimension::Absolute(_)) => false,
        (RequestedDimension::Absolute(x), RequestedDimension::Absolute(y)) => x <= y,
    }
}

/// Sum of requested sizes: absolute while every term is.
pub open spec fn dim_sum(s: Seq<RequestedDimension>) -> RequestedDimension
    decreases s.len(),
{
    if s.len() == 0 {
        RequestedDimension::Absolute(0)
    } else {
        match (dim_sum(s.drop_last()), s.last()) {
            (RequestedDimension::Absolute(a), RequestedDimension::Absolute(b)) => RequestedDimension::Absolute(
                (a + b) as u16,
            ),
            _ => RequestedDimension::ExpandMax,
        }
    }
}

/// The exact (unbounded) sum of the absolute terms.
pub open spec fn abs_sum(s: Seq<RequestedDimension>) -> int
    decreases s.len(),
{
    if s.len() == 0 {
        0
    } else {
        abs_sum(s.drop_last()) + match s.last() {
            RequestedDimension::Absolute(b) => b as int,
            RequestedDimension::ExpandMax => 0,
        }
    }
}

/// Largest requested size, `Absolute(0)` for none.
pub open spec fn dim_max(s: Seq<RequestedDimension>) -> RequestedDimension
    decreases s.len(),
{
    if s.len() == 0 {
        RequestedDimension::Absolute(0)
    } else {
        let m = dim_max(s.drop_last());
        if dim_le(m, s.last()) {
            s.last()
        } else {
            m
        }
    }
}

impl RequestedDimension {
    /// Whether `self` is at most `other` in the order of requested sizes.
    pub fn le(&self, other: &RequestedDimension) -> (r: bool)
        ensures
            r == dim_le(*self, *other),
    {
        match (self, other) {
            (_, RequestedDimension::ExpandMax) => true,
            (RequestedDimension::ExpandMax, RequestedDimension::Absolute(_)) => false,
            (RequestedDimension::Absolute(x), RequestedDimension::Absolute(y)) => *x <= *y,
        }
    }

    /// Whether this is the absolute amount `other`.
    pub fn eq_amount(&self, other: u16) -> (r: bool)
        ensures
            r == (*self == RequestedDimension::Absolute(other)),
    {
        match self {
            RequestedDimension::ExpandMax => false,
            RequestedDimension::Absolute(d) => *d == other,
        }
    }

    /// Sum of requested sizes.
    pub fn sum(dims: &Vec<RequestedDimension>) -> (r: RequestedDimension)
        requires
            abs_sum(dims@) <= u16::MAX,
        ensures
            r == dim_sum(dims@),
    {
        let mut acc = RequestedDimension::Absolute(0);
        for i in 0..dims.len()
            invariant
                abs_sum(dims@) <= u16::MAX,
                acc == dim_sum(dims@.take(i as int)),
                acc matches RequestedDimension::Absolute(a) ==> a == abs_sum(dims@.take(i as int)),
        {
            proof {
                assert(dims@.take(i + 1).drop_last() =~= dims@.take(i as int));
                lemma_abs_sum_prefix(dims@, i + 1);
            }
            acc = match (acc, dims[i]) {
                (RequestedDimension::Absolute(a), RequestedDimension::Absolute(b)) => RequestedDimension::Absolute(
                    a + b,
                ),
                _ => RequestedDimension::ExpandMax,
            };
        }
        assert(dims@.take(dims.len() as int) =~= dims@);
        acc
    }

    /// Largest requested size, `Absolute(0)` when there is none.
    pub fn max(dims: &Vec<RequestedDimension>) -> (r: RequestedDimension)
        ensures
            r == dim_max(dims@),
    {
        let mut acc = RequestedDimension::Absolute(0);
        for i in 0..dims.len()
            invariant
                acc == dim_max(dims@.take(i as int)),
        {
            assert(dims@.take(i + 1).drop_last() =~= dims@.take(i as int));
            if acc.le(&dims[i]) {
                acc = dims[i];
            }
        }
        assert(dims@.take(dims.len() as int) =~= dims@);
        acc
    }
}

/// The largest requested size is at least every request and is one of them
/// (`Absolute(0)` when there is none).
pub proof fn lemma_dim_max_is_largest(s: Seq<RequestedDimension>)
    ensures
        forall|k: int| 0 <= k < s.len() ==> dim_le(#[trigger] s[k], dim_max(s)),
        s.len() > 0 ==> exists|k: int| 0 <= k < s.len() && #[trigger] s[k] == dim_max(s),
        s.len() == 0 ==> dim_max(s) == RequestedDimension::Absolute(0),
    decreases s.len(),
{
    if s.len() > 0 {
        let p = s.drop_last();
        lemma_dim_max_is_largest(p);
        assert forall|k: int| 0 <= k < s.len() implies dim_le(#[trigger] s[k], dim_max(s)) by {
            if k < p.len() {
                assert(s[k] == p[k]);
                assert(dim_le(p[k], dim_max(p)));
            }
        }
        if !dim_le(dim_max(p), s.last()) {
            if p.len() > 0 {
                let k = choose|k: int| 0 <= k < p.len() && #[trigger] p[k] == dim_max(p);
                assert(s[k] == p[k]);
            }
        } else {
            assert(s[s.len() - 1] == dim_max(s));
        }
    }
}

/// A sum of requested sizes expands exactly when one of its terms does;
/// otherwise, when it fits, it is the sum of the amounts.
pub proof fn lemma_dim_sum_adds(s: Seq<RequestedDimension>)
    ensures
        (dim_sum(s) is ExpandMax) == (exists|k: int| 0 <= k < s.len() && (#[trigger] s[k]) is ExpandMax),
        dim_sum(s) is Absolute && abs_sum(s) <= u16::MAX ==> dim_sum(s) == RequestedDimension::Absolute(
            abs_sum(s) as u16,
        ),
    decreases s.len(),
{
    if s.len() > 0 {
        let p = s.drop_last();
        lemma_dim_sum_adds(p);
        lemma_abs_sum_prefix(s, s.len() - 1);
        assert(s.take(s.len() - 1) =~= p);
        lemma_abs_nonneg(p);
        if exists|k: int| 0 <= k < p.len() && (#[trigger] p[k]) is ExpandMax {
            let k = choose|k: int| 0 <= k < p.len() && (#[trigger] p[k]) is ExpandMax;
            assert(s[k] == p[k]);
        }
        if exists|k: int| 0 <= k < s.len() && (#[trigger] s[k]) is ExpandMax {
            let k = choose|k: int| 0 <= k < s.len() && (#[trigger] s[k]) is ExpandMax;
            if k < p.len() {
                assert(s[k] == p[k]);
            }
        }
    }
}

proof fn lemma_abs_nonneg(s: Seq<RequestedDimension>)
    ensures
        abs_sum(s) >= 0,
    decreases s.len(),
{
    if s.len() > 0 {
        lemma_abs_nonneg(s.drop_last());
    }
}

pub proof fn lemma_abs_sum_prefix(s: Seq<RequestedDimension>, i: int)
    requires
        0 <= i <= s.len(),
    ensures
        0 <= abs_sum(s.take(i)) <= abs_sum(s),
    decreases s.len(),
{
    if i < s.len() {
        assert(s.drop_last().take(i) =~= s.take(i));
        lemma_abs_sum_prefix(s.drop_last(), i);
    } else {
        assert(s.take(i) =~= s);
    }
    if s.len() > 0 {
        lemma_abs_sum_prefix(s.drop_last(), s.len() - 1);
        assert(s.drop_last().take(s.len() - 1) =~= s.drop_last());
    }
}

#[derive(Debug, Clone, Copy, PartialEq, Eq, Structural)]
pub struct RequestedDimensions {
    pub height: RequestedDimension,
    pub width: RequestedDimension,
}

/// Definitive position and size of a view.
#[derive(Debug, Clone, Copy, PartialEq, Eq, Structural)]
pub struct Dimensions {
    pub top: u16,
    pub left: u16,
    pub height: u16,
    pub width: u16,
}

impl Default for Dimensions {
    fn default() -> (r: Self)
        ensures
            r.top == 0 && r.left == 0 && r.height == 0 && r.width == 0,
    {
        Dimensions { top: 0, left: 0, height: 0, width: 0 }
    }
}

/// The definitive size given a constraint and a request.
pub open spec fn reconcile_dimension_spec(spec: MeasureSpec, req: RequestedDimension) -> u16 {
    match (spec, req) {
        (MeasureSpec::Unspecified, RequestedDimension::Absolute(d)) => d,
        (MeasureSpec::AtMost(d), RequestedDimension::ExpandMax) => d,
        (MeasureSpec::AtMost(m), RequestedDimension::Absolute(r)) => if m <= r {
            m
        } else {
            r
        },
        (MeasureSpec::Unspecified, RequestedDimension::ExpandMax) => 0,
    }
}

/// A request can be resolved unless it expands without any bound.
pub open spec fn resolvable(spec: MeasureSpec, req: RequestedDimension) -> bool {
    !(spec is Unspecified && req is ExpandMax)
}

impl Dimensions {
    fn reconcile_dimension(measure_spec: &MeasureSpec, requested: &RequestedDimension) -> (r: u16)
        requires
            resolvable(*measure_spec, *requested),
        ensures
            r == reconcile_dimension_spec(*measure_spec, *requested),
    {
        match (measure_spec, requested) {
            (MeasureSpec::Unspecified, RequestedDimension::Absolute(d)) => *d,
            (MeasureSpec::AtMost(d), RequestedDimension::ExpandMax) => *d,
            (MeasureSpec::AtMost(m), RequestedDimension::Absolute(r)) => if *m <= *r {
                *m
            } else {
                *r
            },
            (MeasureSpec::Unspecified, RequestedDimension::ExpandMax) => 0,
        }
    }

    /// Definitive dimensions at (`top`, `left`) from constraints and a request.
    pub fn reconcile(
        measure_specs: &MeasureSpecs,
        requested_dimensions: &RequestedDimensions,
        top: u16,
        left: u16,
    ) -> (r: Self)
        requires
            resolvable(measure_specs.width, requested_dimensions.width),
            resolvable(measure_specs.height, requested_dimensions.height),
        ensures
            r.top == top,
            r.left == left,
            r.width == reconcile_dimension_spec(measure_specs.width, requested_dimensions.width),
            r.height == reconcile_dimension_spec(measure_specs.height, requested_dimensions.height),
    {
        Dimensions {
            top,
            left,
            width: Self::reconcile_dimension(&measure_specs.width, &requested_dimensions.width),
            height: Self::reconcile_dimension(&measure_specs.height, &requested_dimensions.height),
        }
    }
}

/// Text attributes.
#[derive(Clone, Copy, Debug, PartialEq, Eq, Hash, Structural)]
pub enum Style {
    Bold,
    Faint,
    Italic,
    Underline,
    Blink,
    Invert,
    CrossedOut,
    Framed,
}

#[derive(Debug, Clone, Copy, PartialEq, Eq, Structural)]
pub enum Orientation {
    Horizontal,
    Vertical,
}

} // verus!
