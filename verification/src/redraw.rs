//! Why sending the changed runs brings the terminal up to date: the grid of
//! cells seen as one sequence in reading order, and what writing the runs
//! does to it.

use vstd::prelude::*;
use crate::charxel::{cell_width, run_width, CharxelView};
use crate::rendering::{
    apply_diffs, continuation_view, diff_scan, diffs_between, frame_diffs, grid_shaped,
    cursor_needs_update, frame_paint, needs_full_render, place_cell, place_run, put_cell, put_continuations, scan_runs,
    shown_after_frame, lemma_diffs_fit, BufferView, DiffView,
};

verus! {

/// A grid whose rows all hold `w` cells.
pub open spec fn uniform(lines: Seq<Seq<CharxelView>>, w: int) -> bool {
    forall|i: int| 0 <= i < lines.len() ==> (#[trigger] lines[i]).len() == w
}

proof fn lemma_mul_index(r: int, c: int, w: int, h: int)
    requires
        0 <= r < h,
        0 <= c < w,
    ensures
        0 <= r * w + c < h * w,
        r * w + c < (r + 1) * w,
        (r + 1) * w <= h * w,
{
    assert(0 <= r * w + c < h * w) by (nonlinear_arith)
        requires
            0 <= r < h,
            0 <= c < w,
    ;
    assert(r * w + c < (r + 1) * w) by (nonlinear_arith)
        requires
            0 <= c < w,
    ;
    assert((r + 1) * w <= h * w) by (nonlinear_arith)
        requires
            0 <= r < h,
            0 <= c < w,
    ;
}

/// The cells of a uniform grid, in reading order: cell (`r`, `c`) comes at
/// `r * w + c`.
pub proof fn lemma_flat_index(lines: Seq<Seq<CharxelView>>, w: int)
    requires
        w >= 0,
        uniform(lines, w),
    ensures
        lines.flatten().len() == lines.len() * w,
        forall|r: int, c: int|
            0 <= r < lines.len() && 0 <= c < w ==> #[trigger] lines.flatten()[r * w + c] == lines[r][c],
    decreases lines.len(),
{
    let h = lines.len() as int;
    if h == 0 {
        assert(lines.flatten().len() == 0);
    } else {
        let init = lines.drop_last();
        lemma_flat_index(init, w);
        init.lemma_flatten_push(lines.last());
        assert(init.push(lines.last()) =~= lines);
        assert(lines.flatten().len() == (h - 1) * w + w);
        assert((h - 1) * w + w == h * w) by (nonlinear_arith);
        assert forall|r: int, c: int| 0 <= r < h && 0 <= c < w implies #[trigger] lines.flatten()[r * w
            + c] == lines[r][c] by {
            lemma_mul_index(r, c, w, h);
            if r < h - 1 {
                lemma_mul_index(r, c, w, h - 1);
                assert(init[r] == lines[r]);
            } else {
                assert((h - 1) * w + c - (h - 1) * w == c);
            }
        }
    }
}

/// Two uniform grids of the same shape with the same cells in reading order
/// are the same grid.
pub proof fn lemma_flat_eq(a: Seq<Seq<CharxelView>>, b: Seq<Seq<CharxelView>>, w: int)
    requires
        w >= 0,
        uniform(a, w),
        uniform(b, w),
        a.len() == b.len(),
        a.flatten() == b.flatten(),
    ensures
        a == b,
{
    lemma_flat_index(a, w);
    lemma_flat_index(b, w);
    assert forall|r: int| 0 <= r < a.len() implies a[r] == b[r] by {
        assert forall|c: int| 0 <= c < w implies a[r][c] == b[r][c] by {
            assert(a.flatten()[r * w + c] == a[r][c]);
            assert(b.flatten()[r * w + c] == b[r][c]);
        }
        assert(a[r] =~= b[r]);
    }
    assert(a =~= b);
}

/// The sequence with the cell at `i` replaced, if it is there.
pub open spec fn flat_put(f: Seq<CharxelView>, i: int, x: CharxelView) -> Seq<CharxelView> {
    if 0 <= i < f.len() {
        f.update(i, x)
    } else {
        f
    }
}

/// Writing cell (`row`, `col`) of a uniform grid writes its place in
/// reading order.
pub proof fn lemma_put_cell_flat(lines: Seq<Seq<CharxelView>>, w: int, row: int, col: int, x: CharxelView)
    requires
        w > 0,
        uniform(lines, w),
        0 <= row,
        0 <= col < w,
    ensures
        uniform(put_cell(lines, row, col, x), w),
        put_cell(lines, row, col, x).len() == lines.len(),
        put_cell(lines, row, col, x).flatten() == flat_put(lines.flatten(), row * w + col, x),
{
    let h = lines.len() as int;
    let p = put_cell(lines, row, col, x);
    lemma_flat_index(lines, w);
    assert(uniform(p, w));
    lemma_flat_index(p, w);
    if row < h {
        lemma_mul_index(row, col, w, h);
        let f = flat_put(lines.flatten(), row * w + col, x);
        assert forall|m: int| 0 <= m < h * w implies #[trigger] p.flatten()[m] == f[m] by {
            let r = m / w;
            let c = m % w;
            vstd::arithmetic::div_mod::lemma_fundamental_div_mod(m, w);
            assert(0 <= c < w) by {
                vstd::arithmetic::div_mod::lemma_mod_pos_bound(m, w);
            }
            assert(0 <= r < h) by (nonlinear_arith)
                requires
                    m == w * r + c,
                    0 <= c < w,
                    0 <= m < h * w,
                    w > 0,
            ;
            assert(m == r * w + c) by (nonlinear_arith)
                requires
                    m == w * r + c,
            ;
            assert(p.flatten()[r * w + c] == p[r][c]);
            assert(lines.flatten()[r * w + c] == lines[r][c]);
            if r == row && c == col {
            } else {
                assert(r * w + c != row * w + col) by (nonlinear_arith)
                    requires
                        r != row || c != col,
                        0 <= c < w,
                        0 <= col < w,
                        w > 0,
                ;
            }
        }
        assert(p.flatten() =~= f);
    } else {
        assert(row * w + col >= h * w) by (nonlinear_arith)
            requires
                row >= h,
                col >= 0,
                w > 0,
        ;
    }
}

/// The cells `1..k` after `base` marked as continuation cells.
pub open spec fn flat_conts(f: Seq<CharxelView>, base: int, k: int) -> Seq<CharxelView>
    decreases k,
{
    if k <= 1 {
        f
    } else {
        flat_put(flat_conts(f, base, k - 1), base + k - 1, continuation_view())
    }
}

/// A cell written at `base`, its extra columns marked.
pub open spec fn flat_place_cell(f: Seq<CharxelView>, base: int, c: CharxelView) -> Seq<CharxelView> {
    flat_conts(flat_put(f, base, c), base, cell_width(c) as int)
}

/// A run written from `base`, each cell taking as many places as it is wide.
pub open spec fn flat_place_run(f: Seq<CharxelView>, base: int, cs: Seq<CharxelView>) -> Seq<CharxelView>
    decreases cs.len(),
{
    if cs.len() == 0 {
        f
    } else {
        flat_place_cell(flat_place_run(f, base, cs.drop_last()), base + run_width(cs.drop_last()), cs.last())
    }
}

/// The runs written in order, each from its row and column.
pub open spec fn flat_apply(f: Seq<CharxelView>, diffs: Seq<DiffView>, w: int) -> Seq<CharxelView>
    decreases diffs.len(),
{
    if diffs.len() == 0 {
        f
    } else {
        let d = diffs.last();
        flat_place_run(flat_apply(f, diffs.drop_last(), w), d.pos.top * w + d.pos.left, d.charxels)
    }
}

proof fn lemma_grid_pos(top: int, left: int, w: int)
    requires
        w > 0,
        top >= 0,
        left >= 0,
    ensures
        (top + left / w) * w + left % w == top * w + left,
        0 <= left % w < w,
        0 <= top + left / w,
{
    vstd::arithmetic::div_mod::lemma_fundamental_div_mod(left, w);
    vstd::arithmetic::div_mod::lemma_mod_pos_bound(left, w);
    vstd::arithmetic::div_mod::lemma_div_pos_is_pos(left, w);
    assert((top + left / w) * w + left % w == top * w + left) by (nonlinear_arith)
        requires
            left == w * (left / w) + left % w,
    ;
}

proof fn lemma_conts_flat(lines: Seq<Seq<CharxelView>>, w: int, top: int, left: int, k: int)
    requires
        w > 0,
        uniform(lines, w),
        top >= 0,
        left >= 0,
    ensures
        uniform(put_continuations(lines, top, left, w, k), w),
        put_continuations(lines, top, left, w, k).len() == lines.len(),
        put_continuations(lines, top, left, w, k).flatten() == flat_conts(lines.flatten(), top * w + left, k),
    decreases k,
{
    if k > 1 {
        lemma_conts_flat(lines, w, top, left, k - 1);
        let prev = put_continuations(lines, top, left, w, k - 1);
        lemma_grid_pos(top, left + k - 1, w);
        lemma_put_cell_flat(prev, w, top + (left + k - 1) / w, (left + k - 1) % w, continuation_view());
    }
}

proof fn lemma_place_cell_flat(lines: Seq<Seq<CharxelView>>, w: int, top: int, left: int, c: CharxelView)
    requires
        w > 0,
        uniform(lines, w),
        top >= 0,
        left >= 0,
    ensures
        uniform(place_cell(lines, top, left, w, c), w),
        place_cell(lines, top, left, w, c).len() == lines.len(),
        place_cell(lines, top, left, w, c).flatten() == flat_place_cell(lines.flatten(), top * w + left, c),
{
    lemma_grid_pos(top, left, w);
    lemma_put_cell_flat(lines, w, top + left / w, left % w, c);
    let p = put_cell(lines, top + left / w, left % w, c);
    lemma_conts_flat(p, w, top, left, cell_width(c) as int);
}

proof fn lemma_place_run_flat(lines: Seq<Seq<CharxelView>>, w: int, top: int, left: int, cs: Seq<CharxelView>)
    requires
        w > 0,
        uniform(lines, w),
        top >= 0,
        left >= 0,
    ensures
        uniform(place_run(lines, top, left, w, cs), w),
        place_run(lines, top, left, w, cs).len() == lines.len(),
        place_run(lines, top, left, w, cs).flatten() == flat_place_run(lines.flatten(), top * w + left, cs),
    decreases cs.len(),
{
    if cs.len() > 0 {
        lemma_place_run_flat(lines, w, top, left, cs.drop_last());
        crate::charxel::lemma_run_width_prefix(cs.drop_last(), 0);
        let prev = place_run(lines, top, left, w, cs.drop_last());
        lemma_place_cell_flat(prev, w, top, left + run_width(cs.drop_last()), cs.last());
    }
}

/// Writing the runs on a uniform grid writes them in reading order.
pub proof fn lemma_apply_flat(lines: Seq<Seq<CharxelView>>, diffs: Seq<DiffView>, w: int)
    requires
        w > 0,
        uniform(lines, w),
    ensures
        uniform(apply_diffs(lines, diffs, w), w),
        apply_diffs(lines, diffs, w).len() == lines.len(),
        apply_diffs(lines, diffs, w).flatten() == flat_apply(lines.flatten(), diffs, w),
    decreases diffs.len(),
{
    if diffs.len() > 0 {
        lemma_apply_flat(lines, diffs.drop_last(), w);
        let d = diffs.last();
        lemma_place_run_flat(
            apply_diffs(lines, diffs.drop_last(), w),
            w,
            d.pos.top as int,
            d.pos.left as int,
            d.charxels,
        );
    }
}

/// How many of the cells from position `k` on are still covered by the
/// last wide cell before it.
pub open spec fn skip_at(x: Seq<CharxelView>, k: int) -> int
    decreases k,
{
    if k <= 0 {
        0
    } else {
        let s = skip_at(x, k - 1);
        if s > 0 {
            s - 1
        } else if cell_width(x[k - 1]) >= 1 {
            cell_width(x[k - 1]) - 1
        } else {
            0
        }
    }
}

/// A frame drawn the way the views draw: every cell that starts a column is
/// at least one column wide and is not a continuation cell, and the columns
/// a wide cell covers hold continuation cells.
pub open spec fn well_drawn(x: Seq<CharxelView>) -> bool {
    forall|j: int|
        0 <= j < x.len() ==> if #[trigger] skip_at(x, j) == 0 {
            cell_width(x[j]) >= 1 && !x[j].continuation
        } else {
            x[j] == continuation_view()
        }
}

proof fn lemma_skip_at_scan(cur: Seq<CharxelView>, prev: Seq<CharxelView>, w: int, k: int)
    requires
        0 <= k <= cur.len(),
        k <= prev.len(),
    ensures
        diff_scan(cur, prev, w, k as nat).skip == skip_at(cur, k),
        skip_at(cur, k) >= 0,
    decreases k,
{
    if k > 0 {
        lemma_skip_at_scan(cur, prev, w, k - 1);
    }
}

proof fn lemma_skip_after_start(x: Seq<CharxelView>, j: int, e: int)
    requires
        0 <= j,
        j + e <= x.len(),
        skip_at(x, j) == 0,
        cell_width(x[j]) >= 1,
        1 <= e <= cell_width(x[j]),
    ensures
        skip_at(x, j + e) == cell_width(x[j]) - e,
    decreases e,
{
    if e > 1 {
        lemma_skip_after_start(x, j, e - 1);
    }
}

proof fn lemma_flat_conts_at(f: Seq<CharxelView>, base: int, k: int)
    ensures
        flat_conts(f, base, k).len() == f.len(),
        forall|m: int|
            0 <= m < f.len() ==> #[trigger] flat_conts(f, base, k)[m] == if base + 1 <= m < base + k {
                continuation_view()
            } else {
                f[m]
            },
    decreases k,
{
    if k > 1 {
        lemma_flat_conts_at(f, base, k - 1);
    }
}

proof fn lemma_flat_place_cell_at(f: Seq<CharxelView>, base: int, c: CharxelView)
    requires
        0 <= base < f.len(),
    ensures
        flat_place_cell(f, base, c).len() == f.len(),
        forall|m: int|
            0 <= m < f.len() ==> #[trigger] flat_place_cell(f, base, c)[m] == if m == base {
                c
            } else if base + 1 <= m < base + cell_width(c) {
                continuation_view()
            } else {
                f[m]
            },
{
    lemma_flat_conts_at(flat_put(f, base, c), base, cell_width(c) as int);
}

/// The scan of the first `k` cells: the runs found so far, written on the
/// old frame, give the new frame up to the cells the scan has covered, and
/// leave the old frame after them.
proof fn lemma_scan_writes_frame(cur: Seq<CharxelView>, prev: Seq<CharxelView>, w: int, k: int)
    requires
        cur.len() == prev.len(),
        0 <= k <= cur.len(),
        0 < w <= 65535,
        cur.len() <= 65535 * w,
        well_drawn(cur),
        well_drawn(prev),
    ensures
        ({
            let st = diff_scan(cur, prev, w, k as nat);
            let a = flat_apply(prev, scan_runs(st), w);
            &&& st.skip == skip_at(cur, k)
            &&& a.len() == cur.len()
            &&& forall|m: int| 0 <= m < cur.len() && m < k + st.skip ==> #[trigger] a[m] == cur[m]
            &&& forall|m: int| k + st.skip <= m < cur.len() ==> #[trigger] a[m] == prev[m]
            &&& st.open matches Some(d) ==> d.pos.top * w + d.pos.left + run_width(d.charxels) == k
                + st.skip
        }),
    decreases k,
{
    lemma_skip_at_scan(cur, prev, w, k);
    if k > 0 {
        let j = k - 1;
        lemma_scan_writes_frame(cur, prev, w, j);
        lemma_skip_at_scan(cur, prev, w, j);
        let st = diff_scan(cur, prev, w, j as nat);
        let a = flat_apply(prev, scan_runs(st), w);
        let c = cur[j];
        let r = prev[j];
        if st.skip == 0 {
            assert(skip_at(cur, j) == 0);
            let cw = cell_width(c) as int;
            assert(cw >= 1 && !c.continuation);
            assert forall|m: int| j < m < j + cw && m < cur.len() implies #[trigger] cur[m]
                == continuation_view() by {
                lemma_skip_after_start(cur, j, m - j);
                assert(skip_at(cur, m) > 0);
            }
            if c == r {
                if skip_at(prev, j) > 0 {
                    assert(prev[j] == continuation_view());
                }
                assert(skip_at(prev, j) == 0);
                assert forall|m: int| j < m < j + cw && m < prev.len() implies #[trigger] prev[m]
                    == continuation_view() by {
                    lemma_skip_after_start(prev, j, m - j);
                    assert(skip_at(prev, m) > 0);
                }
                let st2 = diff_scan(cur, prev, w, k as nat);
                assert(scan_runs(st2) == scan_runs(st));
            } else {
                let st2 = diff_scan(cur, prev, w, k as nat);
                match st.open {
                    Some(d) => {
                        let d2 = DiffView { pos: d.pos, charxels: d.charxels.push(c) };
                        assert(st2.open == Some(d2));
                        assert(scan_runs(st2) == st.done.push(d2));
                        assert(scan_runs(st2).drop_last() == st.done);
                        assert(d2.charxels.drop_last() =~= d.charxels);
                        assert(st.done.push(d).drop_last() =~= st.done);
                        let f0 = flat_apply(prev, st.done, w);
                        let base = d.pos.top * w + d.pos.left;
                        assert(scan_runs(st) == st.done.push(d));
                        assert(a == flat_place_run(f0, base, d.charxels));
                        assert(flat_apply(prev, scan_runs(st2), w) == flat_place_run(f0, base, d2.charxels));
                        assert(flat_place_run(f0, base, d2.charxels) == flat_place_cell(
                            flat_place_run(f0, base, d.charxels),
                            base + run_width(d.charxels),
                            c,
                        ));
                        lemma_flat_place_cell_at(a, j, c);
                    },
                    None => {
                        let top = (j / w) as u16;
                        let left = (j % w) as u16;
                        vstd::arithmetic::div_mod::lemma_fundamental_div_mod(j, w);
                        vstd::arithmetic::div_mod::lemma_mod_pos_bound(j, w);
                        assert(0 <= j / w < 65535) by (nonlinear_arith)
                            requires
                                j == w * (j / w) + j % w,
                                0 <= j % w < w,
                                0 <= j < 65535 * w,
                                w > 0,
                        ;
                        assert(top as int == j / w);
                        assert(left as int == j % w);
                        assert(top * w + left == j) by (nonlinear_arith)
                            requires
                                j == w * (j / w) + j % w,
                                top == j / w,
                                left == j % w,
                        ;
                        let d2 = DiffView { pos: crate::layout::CursorPos { top, left }, charxels: seq![c] };
                        assert(st2.open == Some(d2));
                        assert(scan_runs(st) == st.done);
                        assert(scan_runs(st2) == st.done.push(d2));
                        assert(st.done.push(d2).drop_last() =~= st.done);
                        assert(d2.charxels.drop_last() =~= Seq::<CharxelView>::empty());
                        let f0 = flat_apply(prev, st.done, w);
                        assert(a == f0);
                        assert(flat_apply(prev, scan_runs(st2), w) == flat_place_run(f0, j, d2.charxels));
                        assert(run_width(Seq::<CharxelView>::empty()) == 0);
                        assert(flat_place_run(f0, j, Seq::<CharxelView>::empty()) == f0);
                        assert(flat_place_run(f0, j, d2.charxels) == flat_place_cell(f0, j, c));
                        lemma_flat_place_cell_at(a, j, c);
                    },
                }
            }
        }
    } else {
        assert(scan_runs(diff_scan(cur, prev, w, 0)) =~= Seq::<DiffView>::empty());
    }
}

/// Writing the runs of cells in which a frame differs from the frame
/// shown over the frame shown gives the frame back: for frames of the same
/// size drawn the way the views draw them (each wide cell followed by
/// continuation cells over the columns it covers).
pub proof fn lemma_diffs_rebuild_frame(cur: BufferView, shown: BufferView)
    requires
        grid_shaped(cur.lines, cur.size),
        grid_shaped(shown.lines, shown.size),
        cur.size == shown.size,
        well_drawn(cur.lines.flatten()),
        well_drawn(shown.lines.flatten()),
    ensures
        apply_diffs(shown.lines, frame_diffs(cur, shown), cur.size.width as int) == cur.lines,
{
    let w = cur.size.width as int;
    let h = cur.size.height as int;
    if w == 0 {
        assert forall|i: int| 0 <= i < h implies cur.lines[i] == shown.lines[i] by {
            assert(cur.lines[i] =~= shown.lines[i]);
        }
        assert(cur.lines =~= shown.lines);
        lemma_diffs_fit(cur.lines, cur.size, shown.lines.flatten());
    } else {
        let diffs = frame_diffs(cur, shown);
        lemma_apply_flat(shown.lines, diffs, w);
        lemma_flat_index(cur.lines, w);
        lemma_flat_index(shown.lines, w);
        let n = cur.lines.flatten().len() as int;
        assert(n <= 65535 * w) by (nonlinear_arith)
            requires
                n == h * w,
                h <= 65535,
                w > 0,
        ;
        lemma_scan_writes_frame(cur.lines.flatten(), shown.lines.flatten(), w, n);
        assert(diffs == scan_runs(diff_scan(cur.lines.flatten(), shown.lines.flatten(), w, n as nat)));
        let after = apply_diffs(shown.lines, diffs, w);
        assert(after.flatten() =~= cur.lines.flatten());
        lemma_flat_eq(after, cur.lines, w);
    }
}

/// After a frame is sent, the terminal shows exactly the frame's cells:
/// whether it is drawn in full or by its changed runs, the cells written
/// over what the terminal showed give the new frame. This holds for frames
/// of the same size drawn the way the views draw them (each wide cell
/// followed by continuation cells over the columns it covers).
pub proof fn lemma_render_shows_frame(cur: BufferView, shown: BufferView)
    requires
        grid_shaped(cur.lines, cur.size),
        grid_shaped(shown.lines, shown.size),
        cur.size == shown.size,
        well_drawn(cur.lines.flatten()),
        well_drawn(shown.lines.flatten()),
    ensures
        shown_after_frame(cur, shown).lines == cur.lines,
{
    if !needs_full_render(cur, shown) && cur.lines != shown.lines {
        lemma_diffs_rebuild_frame(cur, shown);
    }
}

/// What the terminal shows after a frame is sent, cursor included.
pub open spec fn shown_after_render(cur: BufferView, shown: BufferView) -> BufferView {
    if cursor_needs_update(cur, shown) {
        BufferView {
            cursor: cur.cursor,
            cursor_style: cur.cursor_style,
            show_cursor: cur.show_cursor,
            ..shown_after_frame(cur, shown)
        }
    } else {
        shown_after_frame(cur, shown)
    }
}

/// Sending a frame again right after it was sent draws nothing and does
/// not touch the cursor.
pub proof fn lemma_second_render_is_silent(cur: BufferView, shown: BufferView)
    requires
        grid_shaped(cur.lines, cur.size),
        grid_shaped(shown.lines, shown.size),
        well_drawn(cur.lines.flatten()),
        well_drawn(shown.lines.flatten()),
    ensures
        ({
            let cur2 = BufferView { force_full_render: false, bell: false, ..cur };
            let shown2 = shown_after_render(cur, shown);
            &&& frame_paint(cur2, shown2) == Seq::<crate::paint::PaintView>::empty()
            &&& !cursor_needs_update(cur2, shown2)
        }),
{
    if cur.size == shown.size {
        lemma_render_shows_frame(cur, shown);
    }
}

} // verus!
