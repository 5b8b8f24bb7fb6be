//! The text of a grouped list: which lines it shows, how wide and how
//! tall it wants to be, and how each line is cut to the list's width.

use vstd::prelude::*;
use crate::dimension::{measured_side, DimensionSpec};
use crate::layout::LayoutParam;
use crate::text::{checked_visible_truncate, term_string_visible_len, truncate_from, truncate_ok, visible_count};
use crate::unicode::{copy_str, grapheme_clusters, views};

verus! {

/// A group of a list: its heading, if it has one, and the text of its
/// items in the order they are shown.
pub struct ListGroup {
    pub label: Option<String>,
    pub items: Vec<String>,
}

/// The lines of a group: the heading, then the items, indented by two
/// spaces under a heading.
pub open spec fn group_lines(g: ListGroup) -> Seq<Seq<char>> {
    match g.label {
        Some(l) => seq![l@] + views(g.items@).map_values(|t: Seq<char>| seq![' ', ' '] + t),
        None => views(g.items@),
    }
}

/// The lines of the whole list, group after group.
pub open spec fn list_lines(groups: Seq<ListGroup>) -> Seq<Seq<char>>
    decreases groups.len(),
{
    if groups.len() == 0 {
        Seq::empty()
    } else {
        list_lines(groups.drop_last()) + group_lines(groups.last())
    }
}

/// Visible columns of a line, as a cell count.
pub open spec fn line_width(t: Seq<char>) -> u16 {
    visible_count(grapheme_clusters(t), 0) as u16
}

/// The widest of `lines`.
pub open spec fn widest(lines: Seq<Seq<char>>) -> u16
    decreases lines.len(),
{
    if lines.len() == 0 {
        0
    } else {
        let w = widest(lines.drop_last());
        let l = line_width(lines.last());
        if w >= l { w } else { l }
    }
}

/// The side a list asks for: what it is given when it fills its parent,
/// its content capped by the constraint when it wraps it, and a fixed
/// amount capped by the constraint otherwise.
pub open spec fn list_side(param: LayoutParam, constraint: Option<u16>, content: u16) -> Option<u16> {
    match param {
        LayoutParam::WrapContent => match constraint {
            Some(c) => Some(if c <= content { c } else { content }),
            None => Some(content),
        },
        _ => measured_side(param, constraint),
    }
}

fn line_texts(groups: &Vec<ListGroup>) -> (r: Vec<String>)
    ensures
        views(r@) == list_lines(groups@),
{
    let mut r: Vec<String> = Vec::new();
    let mut i: usize = 0;
    while i < groups.len()
        invariant
            0 <= i <= groups.len(),
            views(r@) == list_lines(groups@.take(i as int)),
        decreases groups.len() - i,
    {
        let g = &groups[i];
        let ghost before = views(r@);
        match &g.label {
            Some(l) => {
                r.push(copy_str(l.as_str()));
            },
            None => {},
        }
        let ghost start = views(r@);
        assert(start =~= before + match g.label {
            Some(l) => seq![l@],
            None => Seq::<Seq<char>>::empty(),
        });
        let mut k: usize = 0;
        while k < g.items.len()
            invariant
                0 <= k <= g.items.len(),
                i < groups.len(),
                g == &groups[i as int],
                views(r@).len() == start.len() + k,
                views(r@).take(start.len() as int) == start,
                forall|m: int|
                    0 <= m < k ==> #[trigger] views(r@)[start.len() + m] == match g.label {
                        Some(_) => seq![' ', ' '] + g.items@[m]@,
                        None => g.items@[m]@,
                    },
            decreases g.items.len() - k,
        {
            let mut t = String::new();
            if g.label.is_some() {
                proof {
                    reveal_strlit("  ");
                }
                t.append("  ");
            }
            t.append(g.items[k].as_str());
            let ghost prev = views(r@);
            r.push(t);
            assert(views(r@) =~= prev.push(t@));
            k = k + 1;
        }
        proof {
            let gl = group_lines(groups@[i as int]);
            let h: int = if g.label is Some { 1 } else { 0 };
            assert(gl.len() == h + g.items.len());
            assert forall|m: int| 0 <= m < views(r@).len() implies #[trigger] views(r@)[m] == (before + gl)[m] by {
                if m < start.len() {
                    assert(views(r@)[m] == views(r@).take(start.len() as int)[m]);
                } else {
                    let q = m - start.len();
                    assert(views(r@)[start.len() + q] == match g.label {
                        Some(_) => seq![' ', ' '] + g.items@[q]@,
                        None => g.items@[q]@,
                    });
                    assert(views(g.items@)[q] == g.items@[q]@);
                }
            }
            assert(views(r@) =~= before + gl);
            assert(groups@.take(i + 1).drop_last() =~= groups@.take(i as int));
            assert(groups@.take(i + 1).last() == groups@[i as int]);
        }
        i = i + 1;
    }
    assert(groups@.take(groups.len() as int) =~= groups@);
    r
}

/// Ask for a size under the constraint `spec`: a list that wraps its
/// content is as wide as its widest line and as tall as its lines.
pub fn measure_list(layout_width: LayoutParam, layout_height: LayoutParam, spec: &mut DimensionSpec, groups: &Vec<
    ListGroup,
>)
    requires
        list_lines(groups@).len() <= u16::MAX,
    ensures
        final(spec).width == list_side(layout_width, old(spec).width, widest(list_lines(groups@))),
        final(spec).height == list_side(layout_height, old(spec).height, list_lines(groups@).len() as u16),
{
    let lines = line_texts(groups);
    let ghost v = views(lines@);
    let mut width: u16 = 0;
    let mut i: usize = 0;
    while i < lines.len()
        invariant
            0 <= i <= lines.len(),
            v == views(lines@),
            width == widest(v.take(i as int)),
        decreases lines.len() - i,
    {
        let w = term_string_visible_len(lines[i].as_str()) as u16;
        assert(v.take(i + 1).drop_last() =~= v.take(i as int));
        assert(v[i as int] == lines@[i as int]@);
        if w > width {
            width = w;
        }
        i = i + 1;
    }
    assert(v.take(lines.len() as int) =~= v);
    let height = lines.len() as u16;
    spec.width = match layout_width {
        LayoutParam::WrapContent => match spec.width {
            Some(c) => Some(if c <= width { c } else { width }),
            None => Some(width),
        },
        LayoutParam::Absolute(v) => match spec.width {
            Some(c) => Some(if v < c { v } else { c }),
            None => Some(v),
        },
        LayoutParam::MatchParent => spec.width,
    };
    spec.height = match layout_height {
        LayoutParam::WrapContent => match spec.height {
            Some(c) => Some(if c <= height { c } else { height }),
            None => Some(height),
        },
        LayoutParam::Absolute(v) => match spec.height {
            Some(c) => Some(if v < c { v } else { c }),
            None => Some(v),
        },
        LayoutParam::MatchParent => spec.height,
    };
}

/// Whether a line wider than `width` can be cut to it with the ellipsis.
pub open spec fn cut_ok(t: Seq<char>, width: int, ellipsis: Seq<char>) -> bool {
    &&& grapheme_clusters(ellipsis).len() <= width
    &&& truncate_ok(grapheme_clusters(t), width - grapheme_clusters(ellipsis).len())
}

/// A line as shown in `width` columns: as it is when it fits, else cut
/// and ended with the ellipsis.
pub open spec fn shown(t: Seq<char>, width: int, ellipsis: Seq<char>) -> Seq<char> {
    if visible_count(grapheme_clusters(t), 0) > width {
        truncate_from(grapheme_clusters(t), 0, width - grapheme_clusters(ellipsis).len(), ellipsis)
    } else {
        t
    }
}

/// The lines are drawn from the top while the row is at most `height`
/// below it: at most `height + 1` of them.
pub open spec fn drawn(lines: Seq<Seq<char>>, height: int) -> Seq<Seq<char>> {
    if lines.len() <= height + 1 {
        lines
    } else {
        lines.take(height + 1)
    }
}

/// A drawn line that does not fit cannot be cut.
pub open spec fn uncuttable(lines: Seq<Seq<char>>, width: int, ellipsis: Seq<char>) -> bool {
    exists|k: int|
        0 <= k < lines.len() && visible_count(grapheme_clusters(#[trigger] lines[k]), 0) > width && !cut_ok(
            lines[k],
            width,
            ellipsis,
        )
}

/// The text of the rows a list draws in an area of `width` by `height`
/// cells, from its top row on; `None` when a line that does not fit is
/// too short a space to cut with the ellipsis.
pub fn render_lines(groups: &Vec<ListGroup>, width: u16, height: u16) -> (r: Option<Vec<String>>)
    ensures
        r is None <==> uncuttable(drawn(list_lines(groups@), height as int), width as int, "…"@),
        r matches Some(rows) ==> rows@.len() == drawn(list_lines(groups@), height as int).len() && forall|k: int|
            0 <= k < rows@.len() ==> #[trigger] rows@[k]@ == shown(
                drawn(list_lines(groups@), height as int)[k],
                width as int,
                "…"@,
            ),
{
    let lines = line_texts(groups);
    let ghost all = views(lines@);
    let ghost d = drawn(all, height as int);
    let n: usize = if lines.len() as u64 <= height as u64 + 1 {
        lines.len()
    } else {
        height as usize + 1
    };
    assert(d.len() == n);
    let mut rows: Vec<String> = Vec::new();
    let mut i: usize = 0;
    while i < n
        invariant
            0 <= i <= n <= lines.len(),
            all == views(lines@),
            all == list_lines(groups@),
            d == drawn(all, height as int),
            d.len() == n,
            forall|k: int| 0 <= k < n ==> #[trigger] d[k] == all[k],
            rows@.len() == i,
            forall|k: int| 0 <= k < i ==> #[trigger] rows@[k]@ == shown(d[k], width as int, "…"@),
            forall|k: int|
                0 <= k < i ==> !(visible_count(grapheme_clusters(#[trigger] d[k]), 0) > width && !cut_ok(
                    d[k],
                    width as int,
                    "…"@,
                )),
        decreases n - i,
    {
        let t = lines[i].as_str();
        assert(d[i as int] == t@);
        if term_string_visible_len(t) > width as usize {
            match checked_visible_truncate(t, width as usize, Some("…")) {
                Some(cut) => {
                    rows.push(cut);
                },
                None => {
                    assert(visible_count(grapheme_clusters(d[i as int]), 0) > width && !cut_ok(
                        d[i as int],
                        width as int,
                        "…"@,
                    ));
                    return None;
                },
            }
        } else {
            rows.push(copy_str(t));
        }
        i = i + 1;
    }
    Some(rows)
}

} // verus!
