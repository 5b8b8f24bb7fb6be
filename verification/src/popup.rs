//! Placement of a popup over a parent area, and the box drawn around it.

use vstd::prelude::*;
use crate::charxel::{Charxel, CharxelView, Grapheme};
use crate::color::{Color, ColorTuple};
use crate::layout::{Dimensions, MeasureSpec, MeasureSpecs, RequestedDimension, RequestedDimensions};
use crate::rendering::{area_fits, grid_shaped, in_area, lemma_put_cell_shaped, BufferView, OffscreenRenderBuffer};

verus! {

/// The colors of the popup box, taken from a configuration.
pub trait PopupColors {
    fn popup_colors(&self) -> ColorTuple;
}

/// Without a configuration, the popup has the terminal's default colors.
impl PopupColors for () {
    fn popup_colors(&self) -> (r: ColorTuple)
        ensures
            r.bg.0 == Color::Default,
            r.fg.0 == Color::Default,
    {
        ColorTuple::default()
    }
}

/// The largest inner side of a popup over a parent side of `side` cells:
/// three quarters of it, leaving room for the border, and at least one.
pub open spec fn inner_limit(side: int) -> int {
    let q = side * 3 / 4;
    let m = if q <= side - 2 { q } else { side - 2 };
    if m >= 1 { m } else { 1 }
}

/// The inner side granted to a request, within `limit`.
pub open spec fn inner_side(req: RequestedDimension, limit: int) -> int {
    let v = match req {
        RequestedDimension::ExpandMax => limit,
        RequestedDimension::Absolute(a) => if a <= limit { a as int } else { limit },
    };
    if v >= 1 { v } else { 1 }
}

/// A popup needs a parent of at least four cells each way.
pub open spec fn popup_fits(parent: Dimensions) -> bool {
    parent.width >= 4 && parent.height >= 4
}

/// The box of the popup, border included, centered in the parent.
pub open spec fn popup_outer(parent: Dimensions, requested: RequestedDimensions) -> Dimensions {
    let w = inner_side(requested.width, inner_limit(parent.width as int)) + 2;
    let h = inner_side(requested.height, inner_limit(parent.height as int)) + 2;
    Dimensions {
        top: (parent.top + (parent.height - h) / 2) as u16,
        left: (parent.left + (parent.width - w) / 2) as u16,
        width: w as u16,
        height: h as u16,
    }
}

/// The area inside the border of `outer`.
pub open spec fn popup_inner(outer: Dimensions) -> Dimensions {
    Dimensions {
        top: (outer.top + 1) as u16,
        left: (outer.left + 1) as u16,
        width: (outer.width - 2) as u16,
        height: (outer.height - 2) as u16,
    }
}

/// Coordinates in the parent stay within `u16`.
pub open spec fn parent_ok(parent: Dimensions) -> bool {
    &&& parent.top + parent.height <= u16::MAX
    &&& parent.left + parent.width <= u16::MAX
    &&& parent.width * 3 <= u16::MAX
    &&& parent.height * 3 <= u16::MAX
}

fn limit(side: u16) -> (r: u16)
    requires
        side * 3 <= u16::MAX,
    ensures
        r == inner_limit(side as int),
{
    let q = side * 3 / 4;
    let m = if side >= 2 && q <= side - 2 {
        q
    } else if side >= 2 {
        side - 2
    } else {
        0
    };
    if m >= 1 {
        m
    } else {
        1
    }
}

fn side(req: RequestedDimension, limit: u16) -> (r: u16)
    ensures
        r == inner_side(req, limit as int),
{
    let v = match req {
        RequestedDimension::ExpandMax => limit,
        RequestedDimension::Absolute(a) => if a <= limit {
            a
        } else {
            limit
        },
    };
    if v >= 1 {
        v
    } else {
        1
    }
}

/// The constraints the popup content is measured with over `parent`, or
/// `None` when the parent is too small to hold a popup.
pub fn content_specs(parent: &Dimensions) -> (r: Option<MeasureSpecs>)
    requires
        parent_ok(*parent),
    ensures
        r is None <==> !popup_fits(*parent),
        r matches Some(s) ==> s == (MeasureSpecs {
            width: MeasureSpec::AtMost(inner_limit(parent.width as int) as u16),
            height: MeasureSpec::AtMost(inner_limit(parent.height as int) as u16),
        }),
{
    if parent.width < 4 || parent.height < 4 {
        return None;
    }
    Some(MeasureSpecs {
        width: MeasureSpec::AtMost(limit(parent.width)),
        height: MeasureSpec::AtMost(limit(parent.height)),
    })
}

/// Where the popup goes once its content asked for `requested`: the area
/// inside the border and the box with the border, or `None` when the
/// parent is too small.
pub fn place_content(parent: &Dimensions, requested: &RequestedDimensions) -> (r: Option<(Dimensions, Dimensions)>)
    requires
        parent_ok(*parent),
    ensures
        r is None <==> !popup_fits(*parent),
        r matches Some(p) ==> p.1 == popup_outer(*parent, *requested) && p.0 == popup_inner(p.1),
        r matches Some(p) ==> p.1.width >= 3 && p.1.height >= 3 && p.1.top >= parent.top && p.1.left
            >= parent.left && p.1.top + p.1.height <= parent.top + parent.height && p.1.left + p.1.width
            <= parent.left + parent.width,
{
    if parent.width < 4 || parent.height < 4 {
        return None;
    }
    let inner_w = side(requested.width, limit(parent.width));
    let inner_h = side(requested.height, limit(parent.height));
    let outer_w = inner_w + 2;
    let outer_h = inner_h + 2;
    let outer_top = parent.top + (parent.height - outer_h) / 2;
    let outer_left = parent.left + (parent.width - outer_w) / 2;
    let outer = Dimensions { top: outer_top, left: outer_left, width: outer_w, height: outer_h };
    let inner = Dimensions { top: outer_top + 1, left: outer_left + 1, width: inner_w, height: inner_h };
    Some((inner, outer))
}

/// The grapheme of the border at (`i`, `j`) of the box `d`, if the cell
/// is on the border.
pub open spec fn border_glyph(d: Dimensions, i: int, j: int) -> Seq<char> {
    let top = d.top as int;
    let bot = d.top + d.height - 1;
    let left = d.left as int;
    let right = d.left + d.width - 1;
    if i == top && j == left {
        seq!['┌']
    } else if i == top && j == right {
        seq!['┐']
    } else if i == bot && j == left {
        seq!['└']
    } else if i == bot && j == right {
        seq!['┘']
    } else if i == top || i == bot {
        seq!['─']
    } else {
        seq!['│']
    }
}

/// Whether (`i`, `j`) of the box `d` is on its border.
pub open spec fn on_border(d: Dimensions, i: int, j: int) -> bool {
    i == d.top || i == d.top + d.height - 1 || j == d.left || j == d.left + d.width - 1
}

/// A cell of the box `d` after the border is drawn: the border keeps the
/// cell's styles and takes the popup colors; inside, a blank cell on the
/// popup background.
pub open spec fn border_cell(before: CharxelView, d: Dimensions, i: int, j: int, color: ColorTuple) -> CharxelView {
    if on_border(d, i, j) {
        CharxelView {
            grapheme: border_glyph(d, i, j),
            background: color.bg,
            foreground: color.fg,
            ..before
        }
    } else {
        CharxelView { background: color.bg, ..Charxel::blank_view() }
    }
}

fn bordered(before: Charxel, d: &Dimensions, i: u16, j: u16, color: ColorTuple) -> (r: Charxel)
    requires
        in_area(*d, i as int, j as int),
        d.top + d.height <= u16::MAX,
        d.left + d.width <= u16::MAX,
    ensures
        r@ == border_cell(before@, *d, i as int, j as int, color),
{
    let bot = d.top + (d.height - 1);
    let right = d.left + (d.width - 1);
    if i == d.top || i == bot || j == d.left || j == right {
        let mut c = before;
        let g = if i == d.top && j == d.left {
            proof {
                reveal_strlit("┌");
            }
            Grapheme::from_str("┌")
        } else if i == d.top && j == right {
            proof {
                reveal_strlit("┐");
            }
            Grapheme::from_str("┐")
        } else if i == bot && j == d.left {
            proof {
                reveal_strlit("└");
            }
            Grapheme::from_str("└")
        } else if i == bot && j == right {
            proof {
                reveal_strlit("┘");
            }
            Grapheme::from_str("┘")
        } else if i == d.top || i == bot {
            proof {
                reveal_strlit("─");
            }
            Grapheme::from_str("─")
        } else {
            proof {
                reveal_strlit("│");
            }
            Grapheme::from_str("│")
        };
        assert(g.0@ == border_glyph(*d, i as int, j as int));
        c.grapheme = g;
        c.set_color(color);
        c
    } else {
        let mut c = Charxel::default();
        c.set_background(color.bg);
        c
    }
}

/// Draw a box on the area `dims` of `buf`: corners and edges in the popup
/// colors, blank cells on the popup background inside. An area narrower
/// or lower than two cells is left as it is.
pub fn draw_border(buf: &mut OffscreenRenderBuffer, dims: &Dimensions, color: &ColorTuple)
    requires
        old(buf).wf(),
        dims.width >= 2 && dims.height >= 2 ==> area_fits(*dims, old(buf)@.size),
    ensures
        final(buf).wf(),
        final(buf)@ == (BufferView { lines: final(buf)@.lines, ..old(buf)@ }),
        final(buf)@.lines.len() == old(buf)@.lines.len(),
        forall|i: int, j: int|
            #![trigger final(buf)@.lines[i][j]]
            0 <= i < old(buf)@.lines.len() && 0 <= j < old(buf)@.lines[i].len() ==> final(buf)@.lines[i][j]
                == if dims.width >= 2 && dims.height >= 2 && in_area(*dims, i, j) {
                border_cell(old(buf)@.lines[i][j], *dims, i, j, *color)
            } else {
                old(buf)@.lines[i][j]
            },
{
    if dims.width < 2 || dims.height < 2 {
        return;
    }
    let d = *dims;
    let ghost g0 = buf@.lines;
    let ghost size = buf@.size;
    let mut i = d.top;
    while i < d.top + d.height
        invariant
            d == *dims,
            d.width >= 2 && d.height >= 2,
            buf.wf(),
            size == buf@.size,
            g0 == old(buf)@.lines,
            area_fits(d, size),
            grid_shaped(g0, size),
            buf@ == (BufferView { lines: buf@.lines, ..old(buf)@ }),
            d.top <= i <= d.top + d.height,
            forall|a: int, b: int|
                #![trigger buf@.lines[a][b]]
                0 <= a < g0.len() && 0 <= b < g0[a].len() ==> buf@.lines[a][b] == if in_area(d, a, b)
                    && a < i {
                    border_cell(g0[a][b], d, a, b, *color)
                } else {
                    g0[a][b]
                },
        decreases d.top + d.height - i,
    {
        let mut j = d.left;
        while j < d.left + d.width
            invariant
                d == *dims,
                d.width >= 2 && d.height >= 2,
                buf.wf(),
                size == buf@.size,
                g0 == old(buf)@.lines,
                area_fits(d, size),
                grid_shaped(g0, size),
                buf@ == (BufferView { lines: buf@.lines, ..old(buf)@ }),
                d.top <= i < d.top + d.height,
                d.left <= j <= d.left + d.width,
                forall|a: int, b: int|
                    #![trigger buf@.lines[a][b]]
                    0 <= a < g0.len() && 0 <= b < g0[a].len() ==> buf@.lines[a][b] == if in_area(d, a, b)
                        && (a < i || (a == i && b < j)) {
                        border_cell(g0[a][b], d, a, b, *color)
                    } else {
                        g0[a][b]
                    },
            decreases d.left + d.width - j,
        {
            let ghost before = buf@.lines;
            let c = bordered(buf.get(i, j).clone(), &d, i, j, *color);
            buf.set(i as usize, j as usize, c);
            proof {
                lemma_put_cell_shaped(before, size, i as int, j as int, c@);
            }
            j = j + 1;
        }
        i = i + 1;
    }
}

} // verus!
