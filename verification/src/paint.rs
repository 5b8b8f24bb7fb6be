//! What is sent to the terminal to draw cells: a sequence of paint
//! operations, chosen so that attributes and colors are only set again when
//! they change along a run.

use vstd::prelude::*;
use crate::charxel::{cell_views, cell_width, Charxel, CharxelView, StyleSet};
use crate::color::{BgColor, FgColor};
use crate::layout::{CursorStyle, Style};
use crate::unicode::copy_str;

verus! {

/// One instruction for the terminal.
#[derive(Debug)]
pub enum PaintOp {
    HideCursor,
    ShowCursor,
    MoveTo { left: u16, top: u16 },
    ClearAll,
    ResetAttributes,
    SetStyle(Style),
    SetBackground(BgColor),
    SetForeground(FgColor),
    Print(String),
    SetCursorStyle(CursorStyle),
    Bell,
}

/// What a paint operation does.
pub enum PaintView {
    HideCursor,
    ShowCursor,
    MoveTo { left: u16, top: u16 },
    ClearAll,
    ResetAttributes,
    SetStyle(Style),
    SetBackground(BgColor),
    SetForeground(FgColor),
    Print(Seq<char>),
    SetCursorStyle(CursorStyle),
    Bell,
}

impl PaintOp {
    pub open spec fn view(&self) -> PaintView {
        match self {
            PaintOp::HideCursor => PaintView::HideCursor,
            PaintOp::ShowCursor => PaintView::ShowCursor,
            PaintOp::MoveTo { left, top } => PaintView::MoveTo { left: *left, top: *top },
            PaintOp::ClearAll => PaintView::ClearAll,
            PaintOp::ResetAttributes => PaintView::ResetAttributes,
            PaintOp::SetStyle(s) => PaintView::SetStyle(*s),
            PaintOp::SetBackground(c) => PaintView::SetBackground(*c),
            PaintOp::SetForeground(c) => PaintView::SetForeground(*c),
            PaintOp::Print(s) => PaintView::Print(s@),
            PaintOp::SetCursorStyle(s) => PaintView::SetCursorStyle(*s),
            PaintOp::Bell => PaintView::Bell,
        }
    }
}

pub open spec fn paint_views(ops: Seq<PaintOp>) -> Seq<PaintView> {
    ops.map_values(|o: PaintOp| o@)
}

/// One operation if `present`, none otherwise.
pub open spec fn style_op(present: bool, s: Style) -> Seq<PaintView> {
    if present {
        seq![PaintView::SetStyle(s)]
    } else {
        Seq::empty()
    }
}

/// The styles in the order their operations are sent.
pub open spec fn style_order() -> Seq<Style> {
    seq![
        Style::Bold,
        Style::Faint,
        Style::Italic,
        Style::Underline,
        Style::Blink,
        Style::Invert,
        Style::CrossedOut,
        Style::Framed,
    ]
}

/// The operations for the first `k` styles of the order that the set holds.
pub open spec fn style_ops_upto(st: StyleSet, k: int) -> Seq<PaintView>
    decreases k,
{
    if k <= 0 {
        Seq::empty()
    } else {
        style_ops_upto(st, k - 1) + style_op(st.has(style_order()[k - 1]), style_order()[k - 1])
    }
}

/// The operations that turn on the styles of the set, in a fixed order.
pub open spec fn style_ops(st: StyleSet) -> Seq<PaintView> {
    style_ops_upto(st, 8)
}

/// What the terminal is known to have set along a run: the styles, the
/// background and foreground last sent, and how many cells still belong to
/// the last wide character.
pub struct PaintState {
    pub styles: Option<StyleSet>,
    pub bg: Option<BgColor>,
    pub fg: Option<FgColor>,
    pub skip: int,
}

pub open spec fn paint_start() -> PaintState {
    PaintState { styles: None, bg: None, fg: None, skip: 0 }
}

/// The operations that draw `c`: a reset and the styles when the styles
/// change (which forgets the colors), each color when it changes, then the
/// grapheme.
pub open spec fn paint_cell(st: PaintState, c: CharxelView) -> (PaintState, Seq<PaintView>) {
    let (st1, o1) = if st.styles != Some(c.styles) {
        (
            PaintState { styles: Some(c.styles), bg: None, fg: None, skip: st.skip },
            seq![PaintView::ResetAttributes] + style_ops(c.styles),
        )
    } else {
        (st, Seq::empty())
    };
    let (st2, o2) = if st1.bg != Some(c.background) {
        (PaintState { bg: Some(c.background), ..st1 }, seq![PaintView::SetBackground(c.background)])
    } else {
        (st1, Seq::empty())
    };
    let (st3, o3) = if st2.fg != Some(c.foreground) {
        (PaintState { fg: Some(c.foreground), ..st2 }, seq![PaintView::SetForeground(c.foreground)])
    } else {
        (st2, Seq::empty())
    };
    (st3, o1 + o2 + o3 + seq![PaintView::Print(c.grapheme)])
}

/// The operations that draw the first `k` cells of a run. With `skip_wide`
/// the cells that follow a wide character, which it covers on screen, are
/// passed over.
pub open spec fn paint_scan(cells: Seq<CharxelView>, skip_wide: bool, k: nat) -> (PaintState, Seq<
    PaintView,
>)
    decreases k,
{
    if k == 0 {
        (paint_start(), Seq::empty())
    } else {
        let (st, ops) = paint_scan(cells, skip_wide, (k - 1) as nat);
        let c = cells[k - 1];
        if skip_wide && st.skip > 0 {
            (PaintState { skip: st.skip - 1, ..st }, ops)
        } else {
            let skip = if skip_wide && cell_width(c) >= 1 {
                cell_width(c) - 1
            } else {
                0
            };
            let (st2, o) = paint_cell(PaintState { skip, ..st }, c);
            (st2, ops + o)
        }
    }
}

/// The operations that draw a whole run.
pub open spec fn paint_run(cells: Seq<CharxelView>, skip_wide: bool) -> Seq<PaintView> {
    paint_scan(cells, skip_wide, cells.len()).1
}

/// What a terminal draws with: its background and foreground (unset means
/// its default colors) and the styles turned on.
pub struct TermAttrs {
    pub bg: Option<BgColor>,
    pub fg: Option<FgColor>,
    pub styles: Set<Style>,
}

/// What one operation does to the terminal's attributes: resetting them
/// brings back the default colors and turns every style off, setting a
/// color sets it, setting a style turns it on, and the other operations
/// keep them.
pub open spec fn attrs_after_op(t: TermAttrs, op: PaintView) -> TermAttrs {
    match op {
        PaintView::ResetAttributes => TermAttrs { bg: None, fg: None, styles: Set::empty() },
        PaintView::SetBackground(b) => TermAttrs { bg: Some(b), fg: t.fg, styles: t.styles },
        PaintView::SetForeground(f) => TermAttrs { bg: t.bg, fg: Some(f), styles: t.styles },
        PaintView::SetStyle(x) => TermAttrs { bg: t.bg, fg: t.fg, styles: t.styles.insert(x) },
        _ => t,
    }
}

/// The terminal's attributes after the operations `ops`, from `t`.
pub open spec fn attrs_after(t: TermAttrs, ops: Seq<PaintView>) -> TermAttrs
    decreases ops.len(),
{
    if ops.len() == 0 {
        t
    } else {
        attrs_after_op(attrs_after(t, ops.drop_last()), ops.last())
    }
}

/// The attributes the painter counts as set are the terminal's.
pub open spec fn attrs_known(st: PaintState, t: TermAttrs) -> bool {
    &&& st.bg is Some ==> t.bg == st.bg
    &&& st.fg is Some ==> t.fg == st.fg
    &&& st.styles matches Some(x) ==> t.styles == x@
}

/// The attributes a cell is drawn with.
pub open spec fn cell_attrs(c: CharxelView) -> TermAttrs {
    TermAttrs { bg: Some(c.background), fg: Some(c.foreground), styles: c.styles@ }
}

proof fn lemma_attrs_after_concat(t: TermAttrs, a: Seq<PaintView>, b: Seq<PaintView>)
    ensures
        attrs_after(t, a + b) == attrs_after(attrs_after(t, a), b),
    decreases b.len(),
{
    if b.len() == 0 {
        assert(a + b =~= a);
    } else {
        lemma_attrs_after_concat(t, a, b.drop_last());
        assert((a + b).drop_last() =~= a + b.drop_last());
        assert((a + b).last() == b.last());
    }
}

proof fn lemma_attrs_after_one(t: TermAttrs, op: PaintView)
    ensures
        attrs_after(t, seq![op]) == attrs_after_op(t, op),
        attrs_after(t, Seq::<PaintView>::empty()) == t,
{
    assert(seq![op].drop_last() =~= Seq::<PaintView>::empty());
}

/// The position of a style in the order its operations are sent.
pub open spec fn style_rank(x: Style) -> int {
    match x {
        Style::Bold => 0,
        Style::Faint => 1,
        Style::Italic => 2,
        Style::Underline => 3,
        Style::Blink => 4,
        Style::Invert => 5,
        Style::CrossedOut => 6,
        Style::Framed => 7,
    }
}

proof fn lemma_style_ops_upto(t: TermAttrs, st: StyleSet, k: int)
    requires
        0 <= k <= 8,
    ensures
        attrs_after(t, style_ops_upto(st, k)) == (TermAttrs {
            bg: t.bg,
            fg: t.fg,
            styles: t.styles.union(Set::new(|x: Style| st.has(x) && style_rank(x) < k)),
        }),
        forall|i: int| 0 <= i < style_ops_upto(st, k).len() ==> (#[trigger] style_ops_upto(st, k)[i]) is SetStyle,
    decreases k,
{
    if k == 0 {
        assert(t.styles.union(Set::new(|x: Style| st.has(x) && style_rank(x) < k)) =~= t.styles);
    } else {
        lemma_style_ops_upto(t, st, k - 1);
        let a = style_ops_upto(st, k - 1);
        let y = style_order()[k - 1];
        let b = style_op(st.has(y), y);
        assert(style_ops_upto(st, k) == a + b);
        lemma_attrs_after_concat(t, a, b);
        let ta = attrs_after(t, a);
        lemma_attrs_after_one(ta, PaintView::SetStyle(y));
        assert(style_rank(y) == k - 1);
        assert(ta.styles.insert(y) =~= t.styles.union(Set::new(|x: Style| st.has(x) && style_rank(x) < k))
            || !st.has(y));
        assert(!st.has(y) ==> ta.styles =~= t.styles.union(Set::new(|x: Style| st.has(x) && style_rank(x) < k)));
        assert forall|i: int| 0 <= i < (a + b).len() implies (#[trigger] (a + b)[i]) is SetStyle by {
            if i >= a.len() {
                assert((a + b)[i] == b[i - a.len()]);
            }
        }
    }
}

/// Drawing a cell, from attributes the painter knows, prints its grapheme
/// last, with the cell's own attributes: the operations before the print
/// leave the terminal with the cell's background, foreground and styles
/// (colors are sent again after any reset of the attributes), none of them
/// prints, and afterwards the painter still knows the terminal's
/// attributes.
pub proof fn lemma_cell_drawn_in_its_attrs(st: PaintState, t: TermAttrs, c: CharxelView)
    requires
        attrs_known(st, t),
    ensures
        ({
            let (st2, o) = paint_cell(st, c);
            &&& o.len() > 0
            &&& o.last() == PaintView::Print(c.grapheme)
            &&& forall|i: int| 0 <= i < o.len() - 1 ==> !(#[trigger] o[i] is Print)
            &&& attrs_after(t, o.drop_last()) == cell_attrs(c)
            &&& attrs_known(st2, attrs_after(t, o))
        }),
{
    let (st2, o) = paint_cell(st, c);
    let reset = st.styles != Some(c.styles);
    let o1 = if reset {
        seq![PaintView::ResetAttributes] + style_ops(c.styles)
    } else {
        Seq::<PaintView>::empty()
    };
    let st1 = if reset {
        PaintState { bg: None, fg: None, styles: Some(c.styles), ..st }
    } else {
        st
    };
    let o2 = if st1.bg != Some(c.background) {
        seq![PaintView::SetBackground(c.background)]
    } else {
        Seq::<PaintView>::empty()
    };
    let st2b = if st1.bg != Some(c.background) {
        PaintState { bg: Some(c.background), ..st1 }
    } else {
        st1
    };
    let o3 = if st2b.fg != Some(c.foreground) {
        seq![PaintView::SetForeground(c.foreground)]
    } else {
        Seq::<PaintView>::empty()
    };
    let p = seq![PaintView::Print(c.grapheme)];
    assert(o == o1 + o2 + o3 + p);
    assert(o.drop_last() =~= o1 + o2 + o3);
    let t1 = attrs_after(t, o1);
    if reset {
        let r = seq![PaintView::ResetAttributes];
        let t0 = TermAttrs { bg: None, fg: None, styles: Set::empty() };
        lemma_attrs_after_concat(t, r, style_ops(c.styles));
        lemma_attrs_after_one(t, PaintView::ResetAttributes);
        lemma_style_ops_upto(t0, c.styles, 8);
        assert(Set::<Style>::empty().union(Set::new(|x: Style| c.styles.has(x) && style_rank(x) < 8))
            =~= c.styles@);
        assert(t1 == TermAttrs { bg: None, fg: None, styles: c.styles@ });
    } else {
        lemma_attrs_after_one(t, PaintView::Bell);
    }
    assert(attrs_known(st1, t1));
    lemma_attrs_after_concat(t, o1, o2);
    lemma_attrs_after_one(t1, PaintView::SetBackground(c.background));
    let t2 = attrs_after(t, o1 + o2);
    assert(attrs_known(st2b, t2) && t2.bg == Some(c.background) && t2.styles == c.styles@);
    lemma_attrs_after_concat(t, o1 + o2, o3);
    lemma_attrs_after_one(t2, PaintView::SetForeground(c.foreground));
    let t3 = attrs_after(t, o1 + o2 + o3);
    assert(t3 == cell_attrs(c));
    lemma_attrs_after_concat(t, o1 + o2 + o3, p);
    lemma_attrs_after_one(t3, PaintView::Print(c.grapheme));
    if reset {
        lemma_style_ops_upto(t, c.styles, 8);
    }
    assert forall|i: int| 0 <= i < o.len() - 1 implies !(#[trigger] o[i] is Print) by {
        if reset && 1 <= i < o1.len() {
            assert(o1[i] == style_ops(c.styles)[i - 1]);
        }
        assert(o[i] == (o1 + o2 + o3)[i]);
    }
}

/// Every grapheme a run prints is drawn with the attributes of its own
/// cell, whatever the terminal had before the run: each print in the
/// operations is the grapheme of a cell of the run, and the operations
/// before it leave the terminal with that cell's background, foreground
/// and styles.
pub proof fn lemma_run_prints_in_cell_attrs(cells: Seq<CharxelView>, skip_wide: bool, t: TermAttrs)
    ensures
        forall|i: int|
            0 <= i < paint_run(cells, skip_wide).len() && (#[trigger] paint_run(cells, skip_wide)[i]) is Print
                ==> exists|j: int|
                0 <= j < cells.len() && paint_run(cells, skip_wide)[i] == PaintView::Print(cells[j].grapheme)
                    && attrs_after(t, paint_run(cells, skip_wide).take(i)) == cell_attrs(cells[j]),
{
    lemma_scan_prints_in_cell_attrs(cells, skip_wide, t, cells.len());
}

proof fn lemma_scan_prints_in_cell_attrs(cells: Seq<CharxelView>, skip_wide: bool, t: TermAttrs, k: nat)
    requires
        k <= cells.len(),
    ensures
        attrs_known(paint_scan(cells, skip_wide, k).0, attrs_after(t, paint_scan(cells, skip_wide, k).1)),
        forall|i: int|
            0 <= i < paint_scan(cells, skip_wide, k).1.len() && (#[trigger] paint_scan(cells, skip_wide, k).1[i]) is Print
                ==> exists|j: int|
                0 <= j < k && paint_scan(cells, skip_wide, k).1[i] == PaintView::Print(cells[j].grapheme)
                    && attrs_after(t, paint_scan(cells, skip_wide, k).1.take(i)) == cell_attrs(cells[j]),
    decreases k,
{
    if k > 0 {
        lemma_scan_prints_in_cell_attrs(cells, skip_wide, t, (k - 1) as nat);
        let (st, ops) = paint_scan(cells, skip_wide, (k - 1) as nat);
        let c = cells[k - 1];
        if !(skip_wide && st.skip > 0) {
            let skip = if skip_wide && cell_width(c) >= 1 {
                cell_width(c) - 1
            } else {
                0
            };
            let st0 = PaintState { skip, ..st };
            let t0 = attrs_after(t, ops);
            lemma_cell_drawn_in_its_attrs(st0, t0, c);
            let (st2, o) = paint_cell(st0, c);
            let all = paint_scan(cells, skip_wide, k).1;
            assert(all == ops + o);
            lemma_attrs_after_concat(t, ops, o);
            assert forall|i: int| 0 <= i < all.len() && (#[trigger] all[i]) is Print implies exists|j: int|
                0 <= j < k && all[i] == PaintView::Print(cells[j].grapheme) && attrs_after(t, all.take(i))
                    == cell_attrs(cells[j]) by {
                if i < ops.len() {
                    assert(all[i] == ops[i]);
                    assert(all.take(i) =~= ops.take(i));
                    let j = choose|j: int|
                        0 <= j < k - 1 && ops[i] == PaintView::Print(cells[j].grapheme) && attrs_after(t, ops.take(i))
                            == cell_attrs(cells[j]);
                } else {
                    assert(all[i] == o[i - ops.len()]);
                    assert(i == all.len() - 1);
                    assert(all.take(i) =~= ops + o.drop_last());
                    lemma_attrs_after_concat(t, ops, o.drop_last());
                    assert(all[i] == PaintView::Print(cells[k - 1].grapheme));
                }
            }
        }
    }
}

fn push_op(out: &mut Vec<PaintOp>, op: PaintOp)
    ensures
        paint_views(final(out)@) == paint_views(old(out)@).push(op@),
{
    out.push(op);
    assert(paint_views(final(out)@) =~= paint_views(old(out)@).push(op@));
}

fn push_style(out: &mut Vec<PaintOp>, present: bool, s: Style)
    ensures
        paint_views(final(out)@) == paint_views(old(out)@) + style_op(present, s),
{
    if present {
        push_op(out, PaintOp::SetStyle(s));
        assert(paint_views(old(out)@).push(PaintView::SetStyle(s)) =~= paint_views(old(out)@)
            + style_op(present, s));
    } else {
        assert(paint_views(old(out)@) + style_op(present, s) =~= paint_views(old(out)@));
    }
}

/// Append the operations that turn on the styles of `st`.
pub fn push_styles(out: &mut Vec<PaintOp>, st: StyleSet)
    ensures
        paint_views(final(out)@) == paint_views(old(out)@) + style_ops(st),
{
    let order = [
        Style::Bold,
        Style::Faint,
        Style::Italic,
        Style::Underline,
        Style::Blink,
        Style::Invert,
        Style::CrossedOut,
        Style::Framed,
    ];
    assert(order@ =~= style_order());
    let ghost o = paint_views(out@);
    assert(o + style_ops_upto(st, 0) =~= o);
    for k in 0..8
        invariant
            order@ == style_order(),
            paint_views(out@) == o + style_ops_upto(st, k as int),
    {
        let s = order[k];
        push_style(out, st.contains(s), s);
        assert(paint_views(out@) =~= o + style_ops_upto(st, k + 1));
    }
}

/// Append the operations that draw `c`, given what the terminal has set,
/// and update that.
fn paint_one(
    out: &mut Vec<PaintOp>,
    styles: &mut Option<StyleSet>,
    bg: &mut Option<BgColor>,
    fg: &mut Option<FgColor>,
    c: &Charxel,
    skip: u16,
)
    ensures
        ({
            let (st, o) = paint_cell(
                PaintState { styles: *old(styles), bg: *old(bg), fg: *old(fg), skip: skip as int },
                c@,
            );
            &&& paint_views(final(out)@) == paint_views(old(out)@) + o
            &&& st == (PaintState { styles: *final(styles), bg: *final(bg), fg: *final(fg), skip: skip as int })
        }),
{
    let ghost mid0 = paint_views(out@);
    let same_styles = match *styles {
        Some(s) => s == c.styles,
        None => false,
    };
    if !same_styles {
        push_op(out, PaintOp::ResetAttributes);
        push_styles(out, c.styles);
        *styles = Some(c.styles);
        *bg = None;
        *fg = None;
    }
    let ghost mid1 = paint_views(out@);
    let same_bg = match *bg {
        Some(b) => b == c.background,
        None => false,
    };
    if !same_bg {
        push_op(out, PaintOp::SetBackground(c.background));
        *bg = Some(c.background);
    }
    let ghost mid2 = paint_views(out@);
    let same_fg = match *fg {
        Some(f) => f == c.foreground,
        None => false,
    };
    if !same_fg {
        push_op(out, PaintOp::SetForeground(c.foreground));
        *fg = Some(c.foreground);
    }
    let ghost mid3 = paint_views(out@);
    push_op(out, PaintOp::Print(copy_str(c.grapheme.as_str())));
    proof {
        let o1 = if !same_styles {
            seq![PaintView::ResetAttributes] + style_ops(c.styles)
        } else {
            Seq::<PaintView>::empty()
        };
        let o2 = if !same_bg {
            seq![PaintView::SetBackground(c.background)]
        } else {
            Seq::<PaintView>::empty()
        };
        let o3 = if !same_fg {
            seq![PaintView::SetForeground(c.foreground)]
        } else {
            Seq::<PaintView>::empty()
        };
        assert(mid1 =~= mid0 + o1);
        assert(mid2 =~= mid1 + o2);
        assert(mid3 =~= mid2 + o3);
        let (st3, o) = paint_cell(
            PaintState { styles: *old(styles), bg: *old(bg), fg: *old(fg), skip: skip as int },
            c@,
        );
        assert(o =~= o1 + o2 + o3 + seq![PaintView::Print(c@.grapheme)]);
        assert(paint_views(out@) =~= mid0 + o);
    }
}

/// Append the operations that draw the run `cells`, starting with nothing
/// known of the terminal's attributes.
pub fn paint_cells(out: &mut Vec<PaintOp>, cells: &[Charxel], skip_wide: bool)
    ensures
        paint_views(final(out)@) == paint_views(old(out)@) + paint_run(cell_views(cells@), skip_wide),
{
    let ghost cs = cell_views(cells@);
    let ghost o0 = paint_views(out@);
    let mut styles: Option<StyleSet> = None;
    let mut bg: Option<BgColor> = None;
    let mut fg: Option<FgColor> = None;
    let mut skip: u16 = 0;
    assert(o0 + Seq::<PaintView>::empty() =~= o0);
    for k in 0..cells.len()
        invariant
            cs == cell_views(cells@),
            paint_scan(cs, skip_wide, k as nat).0 == (PaintState { styles, bg, fg, skip: skip as int }),
            paint_views(out@) == o0 + paint_scan(cs, skip_wide, k as nat).1,
    {
        let c = &cells[k];
        assert(c@ == cs[k as int]);
        let ghost prev = paint_scan(cs, skip_wide, k as nat);
        if skip_wide && skip > 0 {
            skip = skip - 1;
        } else {
            let w = c.display_width();
            skip = if skip_wide && w >= 1 {
                w - 1
            } else {
                0
            };
            let ghost before = paint_views(out@);
            paint_one(out, &mut styles, &mut bg, &mut fg, c, skip);
            assert(paint_views(out@) =~= o0 + (prev.1 + paint_cell(
                PaintState { skip: skip as int, ..prev.0 },
                c@,
            ).1));
        }
    }
}

} // verus!
