//! The offscreen render buffer: a grid of cells that views draw into, and
//! the computation of what changed since the last frame sent to the
//! terminal.

use vstd::prelude::*;
use crate::charxel::{
    cell_views, cell_width, lemma_run_width_prefix, run_width, lemma_cell_views_push, lemma_cell_views_update, Charxel, CharxelView,
    ContinuationCell,
};
use crate::color::{BgColor, FgColor};
use crate::charxel::{run_text, styles_set, Charxels, Grapheme};
use crate::layout::{CursorPos, CursorStyle, Dimensions, Style};
use crate::unicode::{graphemes, grapheme_clusters, lowercased, str_eq, to_lowercase, views};
use crate::paint::{paint_cells, paint_run, paint_views, PaintOp, PaintView};
use crate::decimal::{decimal, decimal_string, zero_padded, zero_padded_string};
use crate::unicode::push_char;

verus! {

/// Size of the terminal screen, in cells.
#[derive(Copy, Clone, Debug, PartialEq, Eq, Structural)]
pub struct ScreenSize {
    pub width: u16,
    pub height: u16,
}

impl Default for ScreenSize {
    fn default() -> (r: Self)
        ensures
            r.width == 0 && r.height == 0,
    {
        ScreenSize { width: 0, height: 0 }
    }
}

impl ScreenSize {
    pub fn new(width: u16, height: u16) -> (r: Self)
        ensures
            r.width == width && r.height == height,
    {
        ScreenSize { width, height }
    }

    /// The size of an area.
    pub fn from_dimensions(dimensions: &Dimensions) -> (r: Self)
        ensures
            r.width == dimensions.width && r.height == dimensions.height,
    {
        ScreenSize { width: dimensions.width, height: dimensions.height }
    }
}

impl From<(u16, u16)> for ScreenSize {
    fn from(v: (u16, u16)) -> (r: Self) {
        ScreenSize { width: v.0, height: v.1 }
    }
}

impl vstd::std_specs::convert::FromSpecImpl<(u16, u16)> for ScreenSize {
    open spec fn obeys_from_spec() -> bool {
        true
    }

    open spec fn from_spec(v: (u16, u16)) -> Self {
        ScreenSize { width: v.0, height: v.1 }
    }
}

/// One row of the buffer.
#[derive(Debug)]
pub struct OffscreenLine {
    pub charxels: Vec<Charxel>,
}

impl OffscreenLine {
    pub open spec fn view(&self) -> Seq<CharxelView> {
        cell_views(self.charxels@)
    }

    /// A row of `width` blank cells.
    pub fn blank(width: u16) -> (r: Self)
        ensures
            r@.len() == width,
            forall|j: int| 0 <= j < width ==> #[trigger] r@[j] == Charxel::blank_view(),
    {
        let mut v: Vec<Charxel> = Vec::new();
        for j in 0..width
            invariant
                v@.len() == j,
                forall|k: int| 0 <= k < j ==> #[trigger] cell_views(v@)[k] == Charxel::blank_view(),
        {
            let c = Charxel::default();
            proof {
                lemma_cell_views_push(v@, c);
            }
            v.push(c);
        }
        OffscreenLine { charxels: v }
    }

    /// Whether both rows hold the same cells.
    pub fn same(&self, other: &OffscreenLine) -> (r: bool)
        ensures
            r == (self@ == other@),
    {
        if self.charxels.len() != other.charxels.len() {
            assert(self@.len() != other@.len());
            return false;
        }
        for j in 0..self.charxels.len()
            invariant
                self.charxels.len() == other.charxels.len(),
                forall|k: int| 0 <= k < j ==> #[trigger] self@[k] == other@[k],
        {
            if !self.charxels[j].same(&other.charxels[j]) {
                assert(self@[j as int] != other@[j as int]);
                return false;
            }
        }
        assert(self@ =~= other@);
        true
    }
}

impl Clone for OffscreenLine {
    fn clone(&self) -> (r: Self)
        ensures
            r@ == self@,
    {
        let mut v: Vec<Charxel> = Vec::new();
        for j in 0..self.charxels.len()
            invariant
                cell_views(v@) == self@.take(j as int),
        {
            let c = self.charxels[j].clone();
            proof {
                lemma_cell_views_push(v@, c);
            }
            v.push(c);
            assert(cell_views(v@) =~= self@.take(j + 1));
        }
        assert(self@.take(self.charxels.len() as int) =~= self@);
        OffscreenLine { charxels: v }
    }
}

/// The views of a slice of rows.
pub open spec fn line_views(lines: Seq<OffscreenLine>) -> Seq<Seq<CharxelView>> {
    lines.map_values(|l: OffscreenLine| l@)
}

/// What the buffer holds: its cells row by row, and the cursor and bell
/// requests that go with the frame.
pub struct BufferView {
    pub lines: Seq<Seq<CharxelView>>,
    pub size: ScreenSize,
    pub cursor: CursorPos,
    pub cursor_priority: u8,
    pub cursor_style: CursorStyle,
    pub show_cursor: bool,
    pub bell: bool,
    pub force_full_render: bool,
}

/// The rows match the size: `height` rows of `width` cells.
pub open spec fn grid_shaped(lines: Seq<Seq<CharxelView>>, size: ScreenSize) -> bool {
    &&& lines.len() == size.height
    &&& forall|i: int| 0 <= i < lines.len() ==> (#[trigger] lines[i]).len() == size.width
}

/// The view of the right part of a wide character.
pub open spec fn continuation_view() -> CharxelView {
    CharxelView { grapheme: Seq::<char>::empty(), continuation: true, ..Charxel::blank_view() }
}

/// The grid with the cell at (`row`, `col`) replaced, if it lies on it.
pub open spec fn put_cell(
    lines: Seq<Seq<CharxelView>>,
    row: int,
    col: int,
    c: CharxelView,
) -> Seq<Seq<CharxelView>> {
    if 0 <= row < lines.len() && 0 <= col < lines[row].len() {
        lines.update(row, lines[row].update(col, c))
    } else {
        lines
    }
}

/// A grid of blank cells.
pub open spec fn blank_grid(size: ScreenSize) -> Seq<Seq<CharxelView>> {
    Seq::new(size.height as nat, |i: int| Seq::new(size.width as nat, |j: int| Charxel::blank_view()))
}

/// A run of consecutive changed cells, starting at `pos`.
#[derive(Debug)]
pub struct ContinuousDiff {
    pub pos: CursorPos,
    pub charxels: Vec<Charxel>,
}

/// What a run of changed cells holds.
pub struct DiffView {
    pub pos: CursorPos,
    pub charxels: Seq<CharxelView>,
}

impl ContinuousDiff {
    pub open spec fn view(&self) -> DiffView {
        DiffView { pos: self.pos, charxels: cell_views(self.charxels@) }
    }
}

pub open spec fn diff_views(d: Seq<ContinuousDiff>) -> Seq<DiffView> {
    d.map_values(|x: ContinuousDiff| x@)
}

pub open spec fn opt_diff_view(d: Option<ContinuousDiff>) -> Option<DiffView> {
    match d {
        Some(x) => Some(x@),
        None => None,
    }
}

/// The state of the scan for changed cells: how many cells still belong to
/// the last wide character, the run being built, and the runs closed.
pub struct DiffScan {
    pub skip: int,
    pub open: Option<DiffView>,
    pub done: Seq<DiffView>,
}

/// The runs of a scan: the closed ones, then the one being built.
pub open spec fn scan_runs(st: DiffScan) -> Seq<DiffView> {
    match st.open {
        Some(d) => st.done.push(d),
        None => st.done,
    }
}

/// One step of the scan, on the new cell `c` and the old cell `r` at flat
/// index `i`. The right part of a wide character is passed over; a cell
/// that did not change closes the run being built; a changed cell extends
/// it, or opens one at its row and column.
pub open spec fn diff_step(st: DiffScan, c: CharxelView, r: CharxelView, i: int, width: int) -> DiffScan {
    if st.skip > 0 {
        DiffScan { skip: st.skip - 1, ..st }
    } else {
        let skip = if cell_width(c) >= 1 {
            cell_width(c) - 1
        } else {
            0
        };
        if c == r {
            DiffScan { skip, open: None, done: scan_runs(st) }
        } else {
            match st.open {
                Some(d) => DiffScan {
                    skip,
                    open: Some(DiffView { pos: d.pos, charxels: d.charxels.push(c) }),
                    done: st.done,
                },
                None => DiffScan {
                    skip,
                    open: Some(
                        DiffView {
                            pos: CursorPos { top: (i / width) as u16, left: (i % width) as u16 },
                            charxels: seq![c],
                        },
                    ),
                    done: st.done,
                },
            }
        }
    }
}

/// The scan after the first `k` cells.
pub open spec fn diff_scan(cur: Seq<CharxelView>, prev: Seq<CharxelView>, width: int, k: nat) -> DiffScan
    decreases k,
{
    if k == 0 {
        DiffScan { skip: 0, open: None, done: Seq::empty() }
    } else {
        diff_step(
            diff_scan(cur, prev, width, (k - 1) as nat),
            cur[k - 1],
            prev[k - 1],
            k - 1,
            width,
        )
    }
}

/// The runs of changed cells between the flat cell sequences `cur` and
/// `prev`, over their common length, on a screen `width` cells wide.
pub open spec fn diffs_between(cur: Seq<CharxelView>, prev: Seq<CharxelView>, width: int) -> Seq<DiffView> {
    let n = if cur.len() <= prev.len() {
        cur.len()
    } else {
        prev.len()
    };
    scan_runs(diff_scan(cur, prev, width, n))
}

/// The grid after the right part of a wide character at flat column `left`
/// of row `top` is marked on its extra cells `1..k`.
pub open spec fn put_continuations(
    lines: Seq<Seq<CharxelView>>,
    top: int,
    left: int,
    width: int,
    k: int,
) -> Seq<Seq<CharxelView>>
    decreases k,
{
    if k <= 1 {
        lines
    } else {
        put_cell(
            put_continuations(lines, top, left, width, k - 1),
            top + (left + k - 1) / width,
            (left + k - 1) % width,
            continuation_view(),
        )
    }
}

/// The grid after the cell `c` is written at column `left` counted from the
/// start of row `top` (wrapping onto the next rows), with its extra columns
/// marked as continuation cells.
pub open spec fn place_cell(
    lines: Seq<Seq<CharxelView>>,
    top: int,
    left: int,
    width: int,
    c: CharxelView,
) -> Seq<Seq<CharxelView>> {
    put_continuations(
        put_cell(lines, top + left / width, left % width, c),
        top,
        left,
        width,
        cell_width(c) as int,
    )
}

/// The grid after a run of cells is written from column `left` of row
/// `top`, each cell taking as many columns as it is wide.
pub open spec fn place_run(
    lines: Seq<Seq<CharxelView>>,
    top: int,
    left: int,
    width: int,
    cs: Seq<CharxelView>,
) -> Seq<Seq<CharxelView>>
    decreases cs.len(),
{
    if cs.len() == 0 {
        lines
    } else {
        place_cell(
            place_run(lines, top, left, width, cs.drop_last()),
            top,
            left + run_width(cs.drop_last()),
            width,
            cs.last(),
        )
    }
}

/// The grid after the runs are written in order.
pub open spec fn apply_diffs(lines: Seq<Seq<CharxelView>>, diffs: Seq<DiffView>, width: int) -> Seq<
    Seq<CharxelView>,
>
    decreases diffs.len(),
{
    if diffs.len() == 0 {
        lines
    } else {
        let d = diffs.last();
        place_run(
            apply_diffs(lines, diffs.drop_last(), width),
            d.pos.top as int,
            d.pos.left as int,
            width,
            d.charxels,
        )
    }
}

/// The positions a run reaches can be counted in `u64`.
pub open spec fn diff_fits(d: DiffView) -> bool {
    d.pos.top + d.pos.left + run_width(d.charxels) <= u64::MAX
}

pub proof fn lemma_put_cell_shaped(lines: Seq<Seq<CharxelView>>, size: ScreenSize, row: int, col: int, c: CharxelView)
    requires
        grid_shaped(lines, size),
    ensures
        grid_shaped(put_cell(lines, row, col, c), size),
{
}

/// Every run of a scan holds at most as many cells as were scanned.
proof fn lemma_scan_run_lengths(cur: Seq<CharxelView>, prev: Seq<CharxelView>, width: int, k: nat)
    requires
        k <= cur.len(),
        k <= prev.len(),
    ensures
        forall|i: int|
            0 <= i < diff_scan(cur, prev, width, k).done.len() ==> (#[trigger] diff_scan(
                cur,
                prev,
                width,
                k,
            ).done[i]).charxels.len() <= k,
        diff_scan(cur, prev, width, k).open matches Some(d) ==> d.charxels.len() <= k,
        k == 0 ==> scan_runs(diff_scan(cur, prev, width, k)).len() == 0,
    decreases k,
{
    if k > 0 {
        lemma_scan_run_lengths(cur, prev, width, (k - 1) as nat);
    }
}

/// Each cell is at most `u16::MAX` columns wide.
proof fn lemma_run_width_bound(s: Seq<CharxelView>)
    ensures
        0 <= run_width(s) <= 65535 * s.len(),
    decreases s.len(),
{
    if s.len() > 0 {
        lemma_run_width_bound(s.drop_last());
    }
}

/// The runs between a grid of `size` and another grid fit the bounds that
/// writing them back needs.
pub proof fn lemma_diffs_fit(lines: Seq<Seq<CharxelView>>, size: ScreenSize, prev: Seq<CharxelView>)
    requires
        grid_shaped(lines, size),
    ensures
        forall|i: int|
            0 <= i < diffs_between(lines.flatten(), prev, size.width as int).len() ==> diff_fits(
                #[trigger] diffs_between(lines.flatten(), prev, size.width as int)[i],
            ),
        size.width == 0 ==> diffs_between(lines.flatten(), prev, size.width as int).len() == 0,
{
    let cur = lines.flatten();
    let w = size.width as int;
    let n = if cur.len() <= prev.len() {
        cur.len()
    } else {
        prev.len()
    };
    lines.lemma_flatten_length_le_mul(size.width as int);
    lines.lemma_flatten_and_flatten_alt_are_equivalent();
    assert(lines.len() * size.width <= 65535 * 65535) by (nonlinear_arith)
        requires
            lines.len() == size.height,
            size.height <= 65535,
            size.width <= 65535,
    ;
    lemma_scan_run_lengths(cur, prev, w, n);
    let r = diffs_between(cur, prev, w);
    assert forall|i: int| 0 <= i < r.len() implies diff_fits(#[trigger] r[i]) by {
        lemma_run_width_bound(r[i].charxels);
        assert(r[i].charxels.len() <= n);
        assert(65535 * r[i].charxels.len() <= 65535 * (65535 * 65535)) by (nonlinear_arith)
            requires
                r[i].charxels.len() <= 65535 * 65535,
        ;
    }
    if size.width == 0 {
        lemma_flatten_zero_width(lines);
    }
}

/// All the cells of the rows, row after row.
pub fn flatten_lines(lines: &[OffscreenLine]) -> (r: Vec<Charxel>)
    ensures
        cell_views(r@) == line_views(lines@).flatten(),
{
    let mut r: Vec<Charxel> = Vec::new();
    assert(line_views(lines@).take(0) =~= Seq::<Seq<CharxelView>>::empty());
    assert(cell_views(r@) =~= Seq::<CharxelView>::empty());
    for i in 0..lines.len()
        invariant
            cell_views(r@) == line_views(lines@).take(i as int).flatten(),
    {
        let ghost before = cell_views(r@);
        let line = &lines[i];
        for j in 0..line.charxels.len()
            invariant
                cell_views(r@) == before + line@.take(j as int),
        {
            let c = line.charxels[j].clone();
            proof {
                lemma_cell_views_push(r@, c);
            }
            r.push(c);
            assert(cell_views(r@) =~= before + line@.take(j + 1));
        }
        proof {
            let lv = line_views(lines@);
            assert(line@.take(line.charxels.len() as int) =~= line@);
            lv.take(i as int).lemma_flatten_push(lv[i as int]);
            assert(lv.take(i as int).push(lv[i as int]) =~= lv.take(i + 1));
        }
    }
    assert(line_views(lines@).take(lines.len() as int) =~= line_views(lines@));
    r
}

proof fn lemma_flatten_zero_width(lines: Seq<Seq<CharxelView>>)
    requires
        forall|i: int| 0 <= i < lines.len() ==> (#[trigger] lines[i]).len() == 0,
    ensures
        lines.flatten().len() == 0,
{
    lines.lemma_flatten_length_le_mul(0);
    lines.lemma_flatten_and_flatten_alt_are_equivalent();
}

/// The frame drawn by the views, kept off screen and compared with the
/// frame last sent to the terminal.
#[derive(Debug)]
pub struct OffscreenRenderBuffer {
    lines: Vec<OffscreenLine>,
    size: ScreenSize,
    cursor: CursorPos,
    cursor_priority: u8,
    cursor_style: CursorStyle,
    show_cursor: bool,
    do_bell: bool,
    force_full_render: bool,
}

impl Default for OffscreenRenderBuffer {
    fn default() -> (r: Self)
        ensures
            r.wf(),
            r@ == (BufferView {
                lines: Seq::empty(),
                size: ScreenSize { width: 0, height: 0 },
                cursor: CursorPos { top: 0, left: 0 },
                cursor_priority: 0,
                cursor_style: CursorStyle::SteadyBar,
                show_cursor: false,
                bell: false,
                force_full_render: false,
            }),
    {
        let r = OffscreenRenderBuffer {
            lines: Vec::new(),
            size: ScreenSize::default(),
            cursor: CursorPos::default(),
            cursor_priority: 0,
            cursor_style: CursorStyle::SteadyBar,
            show_cursor: false,
            do_bell: false,
            force_full_render: false,
        };
        assert(line_views(r.lines@) =~= Seq::<Seq<CharxelView>>::empty());
        r
    }
}

impl OffscreenRenderBuffer {
    pub closed spec fn view(&self) -> BufferView {
        BufferView {
            lines: line_views(self.lines@),
            size: self.size,
            cursor: self.cursor,
            cursor_priority: self.cursor_priority,
            cursor_style: self.cursor_style,
            show_cursor: self.show_cursor,
            bell: self.do_bell,
            force_full_render: self.force_full_render,
        }
    }

    /// The rows always match the size.
    pub open spec fn wf(&self) -> bool {
        grid_shaped(self@.lines, self@.size)
    }

    /// Ring the terminal bell with the next frame.
    pub fn bell(&mut self)
        ensures
            final(self)@ == (BufferView { bell: true, ..old(self)@ }),
    {
        self.do_bell = true;
    }

    /// Resize to `screen_size`; every cell becomes blank.
    pub fn set_size(&mut self, screen_size: ScreenSize)
        ensures
            final(self).wf(),
            final(self)@ == (BufferView {
                lines: blank_grid(screen_size),
                size: screen_size,
                ..old(self)@
            }),
    {
        self.size = screen_size;
        let mut lines: Vec<OffscreenLine> = Vec::new();
        for i in 0..screen_size.height
            invariant
                line_views(lines@) == blank_grid(screen_size).take(i as int),
        {
            let l = OffscreenLine::blank(screen_size.width);
            let ghost before = lines@;
            lines.push(l);
            assert(line_views(lines@) =~= line_views(before).push(l@));
            assert(l@ =~= blank_grid(screen_size)[i as int]);
            assert(line_views(lines@) =~= blank_grid(screen_size).take(i + 1));
        }
        assert(blank_grid(screen_size).take(screen_size.height as int) =~= blank_grid(screen_size));
        self.lines = lines;
    }

    /// Blank every cell and drop the cursor priority.
    pub fn clear(&mut self)
        requires
            old(self).wf(),
        ensures
            final(self).wf(),
            final(self)@ == (BufferView {
                lines: blank_grid(old(self)@.size),
                cursor_priority: 0,
                ..old(self)@
            }),
    {
        let ghost size = self.size;
        let height = self.size.height;
        let width = self.size.width;
        for i in 0..height
            invariant
                self.size == size,
                height == size.height,
                width == size.width,
                self.lines@.len() == height,
                self@ == (BufferView { lines: self@.lines, ..old(self)@ }),
                forall|k: int| 0 <= k < height ==> (#[trigger] self@.lines[k]).len() == width,
                forall|k: int| 0 <= k < i ==> #[trigger] self@.lines[k] == blank_grid(size)[k],
                forall|k: int| i <= k < height ==> #[trigger] self@.lines[k] == old(self)@.lines[k],
        {
            let l = OffscreenLine::blank(width);
            let ghost before = self.lines@;
            self.lines.set(i as usize, l);
            assert(l@ =~= blank_grid(size)[i as int]);
            assert(line_views(self.lines@) == line_views(before).update(i as int, l@));
        }
        self.cursor_priority = 0;
        assert(self@.lines =~= blank_grid(size));
    }

    pub fn set_cursor(&mut self, pos: CursorPos)
        ensures
            final(self)@ == (BufferView { cursor: pos, ..old(self)@ }),
    {
        self.cursor = pos;
    }

    /// Move the cursor unless a placement of higher priority was made since
    /// the last clear.
    pub fn set_cursor_with_priority(&mut self, pos: CursorPos, priority: u8)
        ensures
            priority >= old(self)@.cursor_priority ==> final(self)@ == (BufferView {
                cursor: pos,
                cursor_priority: priority,
                ..old(self)@
            }),
            priority < old(self)@.cursor_priority ==> final(self)@ == old(self)@,
    {
        if priority >= self.cursor_priority {
            self.cursor = pos;
            self.cursor_priority = priority;
        }
    }

    pub fn set_cursor_style(&mut self, style: CursorStyle)
        ensures
            final(self)@ == (BufferView { cursor_style: style, ..old(self)@ }),
    {
        self.cursor_style = style;
    }

    pub fn set_cursor_visible(&mut self, visible: bool)
        ensures
            final(self)@ == (BufferView { show_cursor: visible, ..old(self)@ }),
    {
        self.show_cursor = visible;
    }

    /// Redraw the whole screen with the next frame.
    pub fn request_full_render(&mut self)
        ensures
            final(self)@ == (BufferView { force_full_render: true, ..old(self)@ }),
    {
        self.force_full_render = true;
    }

    pub fn size(&self) -> (r: ScreenSize)
        ensures
            r == self@.size,
    {
        self.size
    }

    pub fn cursor(&self) -> (r: CursorPos)
        ensures
            r == self@.cursor,
    {
        self.cursor
    }

    pub fn cursor_style(&self) -> (r: CursorStyle)
        ensures
            r == self@.cursor_style,
    {
        self.cursor_style
    }

    pub fn cursor_visible(&self) -> (r: bool)
        ensures
            r == self@.show_cursor,
    {
        self.show_cursor
    }

    /// The rows of the buffer.
    pub fn lines(&self) -> (r: &[OffscreenLine])
        ensures
            line_views(r@) == self@.lines,
    {
        self.lines.as_slice()
    }

    /// The cell at (`row`, `col`).
    pub fn get(&self, row: u16, col: u16) -> (r: &Charxel)
        requires
            row < self@.lines.len(),
            col < self@.lines[row as int].len(),
        ensures
            r@ == self@.lines[row as int][col as int],
    {
        assert(self@.lines[row as int] == self.lines@[row as int]@);
        &self.lines[row as usize].charxels[col as usize]
    }

    /// Replace the cell at (`row`, `col`) if it lies on the grid.
    pub fn set(&mut self, row: usize, col: usize, c: Charxel)
        ensures
            final(self)@ == (BufferView {
                lines: put_cell(old(self)@.lines, row as int, col as int, c@),
                ..old(self)@
            }),
    {
        if row < self.lines.len() && col < self.lines[row].charxels.len() {
            let ghost cv = c@;
            let ghost before = self.lines@;
            assert(before[row as int]@ == old(self)@.lines[row as int]);
            let mut line = self.lines[row].clone();
            let ghost lv = line@;
            proof {
                lemma_cell_views_update(line.charxels@, col as int, c);
            }
            line.charxels.set(col, c);
            assert(line@ == lv.update(col as int, cv));
            self.lines.set(row, line);
            assert(line_views(self.lines@) =~= line_views(before).update(
                row as int,
                lv.update(col as int, cv),
            ));
        }
    }
    /// The runs of cells that differ from `reference_lines`, comparing the
    /// two grids cell by cell in reading order.
    pub fn compute_diff(&self, reference_lines: &[OffscreenLine]) -> (r: Vec<ContinuousDiff>)
        requires
            self.wf(),
        ensures
            diff_views(r@) == diffs_between(
                self@.lines.flatten(),
                line_views(reference_lines@).flatten(),
                self@.size.width as int,
            ),
            forall|k: int| 0 <= k < r@.len() ==> diff_fits(#[trigger] r@[k]@),
            self@.size.width == 0 ==> r@.len() == 0,
    {
        proof {
            lemma_diffs_fit(self@.lines, self@.size, line_views(reference_lines@).flatten());
        }
        let refs = flatten_lines(reference_lines);
        let curs = flatten_lines(self.lines.as_slice());
        let ghost cur = cell_views(curs@);
        let ghost prev = cell_views(refs@);
        let ghost w = self.size.width as int;
        let n = if curs.len() <= refs.len() {
            curs.len()
        } else {
            refs.len()
        };
        let width = self.size.width as usize;
        proof {
            if width == 0 {
                lemma_flatten_zero_width(self@.lines);
            }
        }
        let mut diffs: Vec<ContinuousDiff> = Vec::new();
        let mut current: Option<ContinuousDiff> = None;
        let mut skip: u16 = 0;
        assert(diff_views(diffs@) =~= Seq::<DiffView>::empty());
        for i in 0..n
            invariant
                cur == cell_views(curs@),
                prev == cell_views(refs@),
                cur == self@.lines.flatten(),
                prev == line_views(reference_lines@).flatten(),
                n <= curs@.len(),
                n <= refs@.len(),
                w == width,
                width == 0 ==> curs@.len() == 0,
                skip == diff_scan(cur, prev, w, i as nat).skip,
                opt_diff_view(current) == diff_scan(cur, prev, w, i as nat).open,
                diff_views(diffs@) == diff_scan(cur, prev, w, i as nat).done,
        {
            if skip > 0 {
                skip = skip - 1;
            } else {
                let c = &curs[i];
                assert(c@ == cur[i as int]);
                assert(refs[i as int]@ == prev[i as int]);
                let cw = c.display_width();
                skip = if cw >= 1 {
                    cw - 1
                } else {
                    0
                };
                if c.same(&refs[i]) {
                    match current.take() {
                        Some(d) => {
                            let ghost before = diff_views(diffs@);
                            diffs.push(d);
                            assert(diff_views(diffs@) =~= before.push(d@));
                        },
                        None => {},
                    }
                } else {
                    match current.take() {
                        Some(d) => {
                            let mut d = d;
                            let cc = c.clone();
                            proof {
                                lemma_cell_views_push(d.charxels@, cc);
                            }
                            d.charxels.push(cc);
                            current = Some(d);
                        },
                        None => {
                            let cc = c.clone();
                            let mut v: Vec<Charxel> = Vec::new();
                            proof {
                                lemma_cell_views_push(v@, cc);
                            }
                            v.push(cc);
                            assert(cell_views(v@) =~= seq![cc@]);
                            current = Some(
                                ContinuousDiff {
                                    pos: CursorPos {
                                        top: (i / width) as u16,
                                        left: (i % width) as u16,
                                    },
                                    charxels: v,
                                },
                            );
                        },
                    }
                }
            }
        }
        match current {
            Some(d) => {
                let ghost before = diff_views(diffs@);
                diffs.push(d);
                assert(diff_views(diffs@) =~= before.push(d@));
            },
            None => {},
        }
        proof {
            assert(diff_views(diffs@).len() == diffs@.len());
            assert forall|k: int| 0 <= k < diffs@.len() implies diff_fits(#[trigger] diffs@[k]@) by {
                assert(diff_views(diffs@)[k] == diffs@[k]@);
            }
        }
        diffs
    }
    /// Copy the frame and its cursor and bell state from `source`.
    fn copy_frame_from(&mut self, source: &OffscreenRenderBuffer)
        requires
            source.wf(),
        ensures
            final(self).wf(),
            final(self)@ == (BufferView { force_full_render: old(self)@.force_full_render, ..source@ }),
    {
        let mut lines: Vec<OffscreenLine> = Vec::new();
        for i in 0..source.lines.len()
            invariant
                line_views(lines@) == line_views(source.lines@).take(i as int),
        {
            let l = source.lines[i].clone();
            let ghost before = lines@;
            lines.push(l);
            assert(line_views(lines@) =~= line_views(before).push(l@));
            assert(line_views(lines@) =~= line_views(source.lines@).take(i + 1));
        }
        assert(line_views(source.lines@).take(source.lines.len() as int) =~= line_views(source.lines@));
        self.lines = lines;
        self.size = source.size;
        self.cursor = source.cursor;
        self.cursor_priority = source.cursor_priority;
        self.cursor_style = source.cursor_style;
        self.show_cursor = source.show_cursor;
        self.do_bell = source.do_bell;
    }

    /// Whether both buffers hold the same rows.
    fn same_lines(&self, other: &OffscreenRenderBuffer) -> (r: bool)
        ensures
            r == (self@.lines == other@.lines),
    {
        if self.lines.len() != other.lines.len() {
            assert(self@.lines.len() != other@.lines.len());
            return false;
        }
        for i in 0..self.lines.len()
            invariant
                self.lines.len() == other.lines.len(),
                forall|k: int| 0 <= k < i ==> #[trigger] self@.lines[k] == other@.lines[k],
        {
            assert(self@.lines[i as int] == self.lines@[i as int]@);
            assert(other@.lines[i as int] == other.lines@[i as int]@);
            if !self.lines[i].same(&other.lines[i]) {
                return false;
            }
        }
        assert(self@.lines =~= other@.lines);
        true
    }

    /// Send the frame: compared with `reference_screen`, which holds what
    /// the terminal shows, the operations that bring the terminal to this
    /// frame, its cursor and its bell. `reference_screen` is brought up to
    /// date, and the requests for a full redraw and a bell are consumed.
    pub fn render(&mut self, reference_screen: &mut OffscreenRenderBuffer) -> (ops: Vec<PaintOp>)
        requires
            old(self).wf(),
            old(reference_screen).wf(),
        ensures
            final(self).wf(),
            final(reference_screen).wf(),
            final(self)@ == (BufferView { force_full_render: false, bell: false, ..old(self)@ }),
            paint_views(ops@) == frame_paint(old(self)@, old(reference_screen)@) + (if cursor_needs_update(
                old(self)@,
                old(reference_screen)@,
            ) {
                cursor_paint(old(self)@)
            } else {
                Seq::empty()
            }) + (if old(self)@.bell {
                seq![PaintView::Bell]
            } else {
                Seq::empty()
            }),
            final(reference_screen)@ == (if cursor_needs_update(old(self)@, old(reference_screen)@) {
                BufferView {
                    cursor: old(self)@.cursor,
                    cursor_style: old(self)@.cursor_style,
                    show_cursor: old(self)@.show_cursor,
                    ..shown_after_frame(old(self)@, old(reference_screen)@)
                }
            } else {
                shown_after_frame(old(self)@, old(reference_screen)@)
            }),
    {
        let ghost cur = self@;
        let ghost shown = reference_screen@;
        let force = self.force_full_render;
        self.force_full_render = false;
        let mut ops: Vec<PaintOp> = Vec::new();
        let mut cursor_moved = false;
        let same = self.same_lines(reference_screen);
        if force || self.size != reference_screen.size {
            ops.push(PaintOp::HideCursor);
            ops.push(PaintOp::MoveTo { left: 0, top: 0 });
            ops.push(PaintOp::ClearAll);
            assert(paint_views(ops@) =~= seq![
                PaintView::HideCursor,
                PaintView::MoveTo { left: 0, top: 0 },
                PaintView::ClearAll,
            ]);
            let ghost head = paint_views(ops@);
            assert(cur.lines.take(0) =~= Seq::<Seq<CharxelView>>::empty());
            for i in 0..self.lines.len()
                invariant
                    cur.lines == line_views(self.lines@),
                    paint_views(ops@) == head + lines_paint(cur.lines.take(i as int)),
            {
                let ghost before = paint_views(ops@);
                paint_cells(&mut ops, self.lines[i].charxels.as_slice(), true);
                assert(cur.lines.take(i + 1).drop_last() =~= cur.lines.take(i as int));
                assert(cur.lines[i as int] == self.lines@[i as int]@);
                assert(paint_views(ops@) =~= head + lines_paint(cur.lines.take(i + 1)));
            }
            assert(cur.lines.take(self.lines.len() as int) =~= cur.lines);
            reference_screen.copy_frame_from(self);
            cursor_moved = true;
        } else if !same {
            let diffs = self.compute_diff(reference_screen.lines.as_slice());
            proof {
                lemma_diffs_fit(cur.lines, cur.size, shown.lines.flatten());
                assert forall|k: int| 0 <= k < diffs@.len() implies diff_fits(#[trigger] diffs@[k]@) by {
                    assert(diffs@[k]@ == diff_views(diffs@)[k]);
                }
            }
            let ghost dv = diff_views(diffs@);
            assert(dv.take(0) =~= Seq::<DiffView>::empty());
            for k in 0..diffs.len()
                invariant
                    dv == diff_views(diffs@),
                    paint_views(ops@) == diffs_paint(dv.take(k as int)),
            {
                let d = &diffs[k];
                assert(d@ == dv[k as int]);
                ops.push(PaintOp::MoveTo { left: d.pos.left, top: d.pos.top });
                paint_cells(&mut ops, d.charxels.as_slice(), false);
                assert(dv.take(k + 1).drop_last() =~= dv.take(k as int));
                assert(paint_views(ops@) =~= diffs_paint(dv.take(k + 1)));
            }
            assert(dv.take(diffs.len() as int) =~= dv);
            reference_screen.apply_diff(diffs);
            cursor_moved = true;
        } else {
            assert(paint_views(ops@) =~= Seq::<PaintView>::empty());
        }
        let ghost frame = paint_views(ops@);
        if cursor_moved || self.cursor != reference_screen.cursor
            || self.show_cursor != reference_screen.show_cursor
            || self.cursor_style != reference_screen.cursor_style {
            if self.show_cursor {
                ops.push(PaintOp::SetCursorStyle(self.cursor_style));
                ops.push(PaintOp::MoveTo { left: self.cursor.left, top: self.cursor.top });
                ops.push(PaintOp::ShowCursor);
            } else {
                ops.push(PaintOp::HideCursor);
            }
            assert(paint_views(ops@) =~= frame + cursor_paint(cur));
            reference_screen.cursor = self.cursor;
            reference_screen.cursor_style = self.cursor_style;
            reference_screen.show_cursor = self.show_cursor;
        } else {
            assert(paint_views(ops@) =~= frame + Seq::<PaintView>::empty());
        }
        let ghost with_cursor = paint_views(ops@);
        if self.do_bell {
            self.do_bell = false;
            ops.push(PaintOp::Bell);
            assert(paint_views(ops@) =~= with_cursor + seq![PaintView::Bell]);
        } else {
            assert(paint_views(ops@) =~= with_cursor + Seq::<PaintView>::empty());
        }
        ops
    }

    /// Replace the cell at (`row`, `col`), counted in `u64`, if it lies on
    /// the grid.
    fn put(&mut self, row: u64, col: u64, c: Charxel)
        requires
            old(self).wf(),
        ensures
            final(self).wf(),
            final(self)@ == (BufferView {
                lines: put_cell(old(self)@.lines, row as int, col as int, c@),
                ..old(self)@
            }),
    {
        let ghost cv = c@;
        if row < self.size.height as u64 && col < self.size.width as u64 {
            self.set(row as usize, col as usize, c);
        }
        proof {
            lemma_put_cell_shaped(old(self)@.lines, old(self)@.size, row as int, col as int, cv);
        }
    }

    /// Write the runs into the buffer, as the terminal shows them once they
    /// are drawn.
    pub fn apply_diff(&mut self, diffs: Vec<ContinuousDiff>)
        requires
            old(self).wf(),
            forall|k: int| 0 <= k < diffs@.len() ==> diff_fits(#[trigger] diffs@[k]@),
            forall|k: int|
                0 <= k < diffs@.len() && (#[trigger] diffs@[k]).charxels@.len() > 0
                    ==> old(self)@.size.width > 0,
        ensures
            final(self).wf(),
            final(self)@ == (BufferView {
                lines: apply_diffs(old(self)@.lines, diff_views(diffs@), old(self)@.size.width as int),
                ..old(self)@
            }),
    {
        let width = self.size.width as u64;
        let ghost w = width as int;
        let ghost size = self.size;
        assert(diff_views(diffs@).take(0) =~= Seq::<DiffView>::empty());
        for k in 0..diffs.len()
            invariant
                self.wf(),
                self@.size == size,
                width == size.width,
                w == width,
                self@ == (BufferView { lines: self@.lines, ..old(self)@ }),
                forall|m: int| 0 <= m < diffs@.len() ==> diff_fits(#[trigger] diffs@[m]@),
                forall|m: int|
                    0 <= m < diffs@.len() && (#[trigger] diffs@[m]).charxels@.len() > 0 ==> width > 0,
                self@.lines == apply_diffs(old(self)@.lines, diff_views(diffs@).take(k as int), w),
        {
            let diff = &diffs[k];
            assert(diff_fits(diffs@[k as int]@));
            let top = diff.pos.top as u64;
            let base = diff.pos.left as u64;
            let ghost cs = diff@.charxels;
            let ghost start = self@.lines;
            let mut col_offset: u64 = 0;
            assert(cs.take(0) =~= Seq::<CharxelView>::empty());
            for j in 0..diff.charxels.len()
                invariant
                    self.wf(),
                    self@.size == size,
                    width == size.width,
                    w == width,
                    self@ == (BufferView { lines: self@.lines, ..old(self)@ }),
                    cs == cell_views(diff.charxels@),
                    diff.charxels@.len() > 0 ==> width > 0,
                    top == diff.pos.top,
                    base == diff.pos.left,
                    top + base + run_width(cs) <= u64::MAX,
                    col_offset == run_width(cs.take(j as int)),
                    self@.lines == place_run(start, top as int, base as int, w, cs.take(j as int)),
            {
                proof {
                    lemma_run_width_prefix(cs, j + 1);
                    assert(cs.take(j + 1).drop_last() =~= cs.take(j as int));
                }
                let c = &diff.charxels[j];
                assert(c@ == cs[j as int]);
                let left = base + col_offset;
                let cw = c.display_width() as u64;
                self.put(top + left / width, left % width, c.clone());
                let ghost placed = self@.lines;
                let mut extra: u64 = 1;
                while extra < cw
                    invariant
                        1 <= extra,
                        extra <= cw || extra == 1,
                        w == width,
                        self.wf(),
                        self@.size == size,
                        width == size.width,
                        width > 0,
                        self@ == (BufferView { lines: self@.lines, ..old(self)@ }),
                        top + left + cw <= u64::MAX,
                        self@.lines == put_continuations(placed, top as int, left as int, w, extra as int),
                    decreases cw - extra,
                {
                    let right_left = left + extra;
                    self.put(
                        top + right_left / width,
                        right_left % width,
                        Charxel::from_continuation(ContinuationCell),
                    );
                    extra += 1;
                }
                assert(self@.lines == put_continuations(placed, top as int, left as int, w, cw as int));
                col_offset = col_offset + cw;
            }
            assert(cs.take(diff.charxels.len() as int) =~= cs);
            proof {
                let dv = diff_views(diffs@);
                assert(dv.take(k + 1).drop_last() =~= dv.take(k as int));
            }
        }
        assert(diff_views(diffs@).take(diffs.len() as int) =~= diff_views(diffs@));
    }
}

/// The operations that draw every row, each from its start.
pub open spec fn lines_paint(lines: Seq<Seq<CharxelView>>) -> Seq<PaintView>
    decreases lines.len(),
{
    if lines.len() == 0 {
        Seq::empty()
    } else {
        lines_paint(lines.drop_last()) + paint_run(lines.last(), true)
    }
}

/// A full redraw: hide the cursor, clear the screen from its corner, and
/// draw every row.
pub open spec fn full_paint(lines: Seq<Seq<CharxelView>>) -> Seq<PaintView> {
    seq![PaintView::HideCursor, PaintView::MoveTo { left: 0, top: 0 }, PaintView::ClearAll] + lines_paint(
        lines,
    )
}

/// For each run, a move to its start and the operations that draw it.
pub open spec fn diffs_paint(diffs: Seq<DiffView>) -> Seq<PaintView>
    decreases diffs.len(),
{
    if diffs.len() == 0 {
        Seq::empty()
    } else {
        let d = diffs.last();
        diffs_paint(diffs.drop_last()) + seq![PaintView::MoveTo { left: d.pos.left, top: d.pos.top }]
            + paint_run(d.charxels, false)
    }
}

/// Showing the cursor in its style at its place, or hiding it.
pub open spec fn cursor_paint(v: BufferView) -> Seq<PaintView> {
    if v.show_cursor {
        seq![
            PaintView::SetCursorStyle(v.cursor_style),
            PaintView::MoveTo { left: v.cursor.left, top: v.cursor.top },
            PaintView::ShowCursor,
        ]
    } else {
        seq![PaintView::HideCursor]
    }
}

/// Whether a frame must be drawn in full rather than by its changes.
pub open spec fn needs_full_render(cur: BufferView, shown: BufferView) -> bool {
    cur.force_full_render || cur.size != shown.size
}

/// The runs of cells of the frame `cur` that differ from the frame shown.
pub open spec fn frame_diffs(cur: BufferView, shown: BufferView) -> Seq<DiffView> {
    diffs_between(cur.lines.flatten(), shown.lines.flatten(), cur.size.width as int)
}

/// What the terminal shows once the cells of `cur` are drawn on `shown`.
pub open spec fn shown_after_frame(cur: BufferView, shown: BufferView) -> BufferView {
    if needs_full_render(cur, shown) {
        BufferView { force_full_render: shown.force_full_render, ..cur }
    } else if cur.lines != shown.lines {
        BufferView {
            lines: apply_diffs(shown.lines, frame_diffs(cur, shown), cur.size.width as int),
            ..shown
        }
    } else {
        shown
    }
}

/// The operations that draw the cells of `cur` on `shown`.
pub open spec fn frame_paint(cur: BufferView, shown: BufferView) -> Seq<PaintView> {
    if needs_full_render(cur, shown) {
        full_paint(cur.lines)
    } else if cur.lines != shown.lines {
        diffs_paint(frame_diffs(cur, shown))
    } else {
        Seq::empty()
    }
}

/// Whether the cursor must be sent again: after any drawing, or when its
/// place, visibility or style changed.
pub open spec fn cursor_needs_update(cur: BufferView, shown: BufferView) -> bool {
    ||| needs_full_render(cur, shown)
    ||| cur.lines != shown.lines
    ||| cur.cursor != shown.cursor
    ||| cur.show_cursor != shown.show_cursor
    ||| cur.cursor_style != shown.cursor_style
}

/// Whether (`i`, `j`) lies in the area.
pub open spec fn in_area(d: Dimensions, i: int, j: int) -> bool {
    d.top <= i < d.top + d.height && d.left <= j < d.left + d.width
}

/// The area lies on a grid of `size`.
pub open spec fn area_fits(d: Dimensions, size: ScreenSize) -> bool {
    d.top + d.height <= size.height && d.left + d.width <= size.width
}

/// Where a write has got to: the grid so far, the writing column relative
/// to the area, and whether the write has stopped at the area's edge.
pub struct PenState {
    pub lines: Seq<Seq<CharxelView>>,
    pub left: int,
    pub stopped: bool,
}

/// A space with the colors and styles of `c`.
pub open spec fn space_like(c: CharxelView) -> CharxelView {
    CharxelView { grapheme: seq![' '], continuation: false, ..c }
}

/// `n` copies of `c` written from column `col` of row `row`.
pub open spec fn fill_cells(lines: Seq<Seq<CharxelView>>, row: int, col: int, n: int, c: CharxelView) -> Seq<
    Seq<CharxelView>,
>
    decreases n,
{
    if n <= 0 {
        lines
    } else {
        put_cell(fill_cells(lines, row, col, n - 1, c), row, col + n - 1, c)
    }
}

/// The extra columns `1..k` after column `col` marked as the right part of
/// a wide character.
pub open spec fn mark_wide(lines: Seq<Seq<CharxelView>>, row: int, col: int, k: int) -> Seq<
    Seq<CharxelView>,
>
    decreases k,
{
    if k <= 1 {
        lines
    } else {
        put_cell(mark_wide(lines, row, col, k - 1), row, col + k - 1, continuation_view())
    }
}

/// Columns a tab at column `left` takes: up to the next multiple of eight,
/// but not past `width`.
pub open spec fn tab_spaces(left: int, width: int) -> int {
    let stop = (left / 8 + 1) * 8;
    (if stop <= width {
        stop
    } else {
        width
    }) - left
}

/// One cell written at the pen on row `top` of the area `d`. Writing stops
/// at the area's edge, and before a wide character that does not fit; a tab
/// becomes spaces up to the next tab stop.
pub open spec fn write_step(st: PenState, c: CharxelView, d: Dimensions, top: int) -> PenState {
    if st.stopped {
        st
    } else if top >= d.height || st.left >= d.width {
        PenState { stopped: true, ..st }
    } else if c.grapheme == seq!['\t'] {
        let n = tab_spaces(st.left, d.width as int);
        PenState {
            lines: fill_cells(st.lines, d.top + top, d.left + st.left, n, space_like(c)),
            left: st.left + n,
            stopped: false,
        }
    } else {
        let w = cell_width(c) as int;
        if w > 1 && st.left + w > d.width {
            PenState { stopped: true, ..st }
        } else {
            PenState {
                lines: mark_wide(
                    put_cell(st.lines, d.top + top, d.left + st.left, c),
                    d.top + top,
                    d.left + st.left,
                    w,
                ),
                left: st.left + w,
                stopped: false,
            }
        }
    }
}

/// The cells written one after the other.
pub open spec fn write_run(st: PenState, cs: Seq<CharxelView>, d: Dimensions, top: int) -> PenState
    decreases cs.len(),
{
    if cs.len() == 0 {
        st
    } else {
        write_step(write_run(st, cs.drop_last(), d, top), cs.last(), d, top)
    }
}

proof fn lemma_write_run_stays_stopped(st: PenState, cs: Seq<CharxelView>, d: Dimensions, top: int, k: int)
    requires
        0 <= k <= cs.len(),
        write_run(st, cs.take(k), d, top).stopped,
    ensures
        write_run(st, cs, d, top) == write_run(st, cs.take(k), d, top),
    decreases cs.len() - k,
{
    if k == cs.len() {
        assert(cs.take(k) =~= cs);
    } else {
        assert(cs.take(k + 1).drop_last() =~= cs.take(k));
        lemma_write_run_stays_stopped(st, cs, d, top, k + 1);
    }
}

/// The lowercased graphemes of the cells of `line` in the columns of area
/// `d`.
pub open spec fn row_keys(line: Seq<CharxelView>, d: Dimensions) -> Seq<Seq<char>> {
    Seq::new(d.width as nat, |c: int| lowercased(line[d.left + c].grapheme))
}

/// The lowercased grapheme clusters of a search text.
pub open spec fn query_keys(query: Seq<char>) -> Seq<Seq<char>> {
    grapheme_clusters(query).map_values(|g: Seq<char>| lowercased(g))
}

/// The query matches the row from column `i`.
pub open spec fn match_at(keys: Seq<Seq<char>>, q: Seq<Seq<char>>, i: int) -> bool {
    &&& 0 <= i
    &&& i + q.len() <= keys.len()
    &&& forall|j: int| 0 <= j < q.len() ==> keys[i + j] == q[j]
}

/// Column `c` lies in a match starting before column `upto`.
pub open spec fn covered_before(keys: Seq<Seq<char>>, q: Seq<Seq<char>>, c: int, upto: int) -> bool {
    exists|i: int| 0 <= i < upto && #[trigger] match_at(keys, q, i) && i <= c < i + q.len()
}

/// Column `c` lies in some match.
pub open spec fn covered(keys: Seq<Seq<char>>, q: Seq<Seq<char>>, c: int) -> bool {
    exists|i: int| #[trigger] match_at(keys, q, i) && i <= c < i + q.len()
}

/// A cell shown as a search hit.
pub open spec fn hit(c: CharxelView, fg: FgColor, bg: BgColor) -> CharxelView {
    CharxelView { foreground: fg, background: bg, ..c }
}

/// A view's window on the buffer: it draws into the area `dimensions`, with
/// its own writing position counted from the area's corner.
#[derive(Debug)]
pub struct ScreenFrame {
    offscreen: OffscreenRenderBuffer,
    dimensions: Dimensions,
    cursor: CursorPos,
}

impl ScreenFrame {
    pub closed spec fn buffer(&self) -> BufferView {
        self.offscreen@
    }

    pub closed spec fn area(&self) -> Dimensions {
        self.dimensions
    }

    /// The writing position, relative to the area.
    pub closed spec fn pen(&self) -> CursorPos {
        self.cursor
    }

    pub open spec fn wf(&self) -> bool {
        &&& grid_shaped(self.buffer().lines, self.buffer().size)
        &&& area_fits(self.area(), self.buffer().size)
    }

    /// A frame on the area `dimensions` of `offscreen`, writing from the
    /// area's corner.
    pub fn new(offscreen: OffscreenRenderBuffer, dimensions: Dimensions) -> (r: Self)
        ensures
            r.buffer() == offscreen@,
            r.area() == dimensions,
            r.pen() == (CursorPos { top: 0, left: 0 }),
    {
        ScreenFrame { offscreen, dimensions, cursor: CursorPos::default() }
    }

    /// Give the buffer back.
    pub fn into_offscreen(self) -> (r: OffscreenRenderBuffer)
        ensures
            r@ == self.buffer(),
    {
        self.offscreen
    }

    /// The buffer drawn into.
    pub fn offscreen(&self) -> (r: &OffscreenRenderBuffer)
        ensures
            r@ == self.buffer(),
    {
        &self.offscreen
    }

    pub fn dimensions(&self) -> (r: Dimensions)
        ensures
            r == self.area(),
    {
        self.dimensions
    }

    #[verifier::rlimit(60)]
    #[verifier::spinoff_prover]
    fn fill_area(&mut self, bg: Option<BgColor>, fg: Option<FgColor>, styles: Option<&[Style]>)
        requires
            old(self).wf(),
        ensures
            final(self).wf(),
            final(self).area() == old(self).area(),
            final(self).pen() == old(self).pen(),
            final(self).buffer() == (BufferView { lines: final(self).buffer().lines, ..old(self).buffer() }),
            forall|i: int, j: int|
                #![trigger final(self).buffer().lines[i][j]]
                0 <= i < old(self).buffer().lines.len() && 0 <= j < old(self).buffer().lines[i].len()
                    ==> if in_area(old(self).area(), i, j) {
                    area_cell(old(self).buffer().lines[i][j], final(self).buffer().lines[i][j], bg, fg, styles)
                } else {
                    final(self).buffer().lines[i][j] == old(self).buffer().lines[i][j]
                },
    {
        let d = self.dimensions;
        let ghost g0 = self.offscreen@.lines;
        let ghost size = self.offscreen@.size;
        let mut i = d.top;
        while i < d.top + d.height
            invariant
                d == self.dimensions,
                d == old(self).area(),
                self.cursor == old(self).pen(),
                self.offscreen.wf(),
                size == self.offscreen@.size,
                g0 == old(self).buffer().lines,
                area_fits(d, size),
                grid_shaped(g0, size),
                self.offscreen@ == (BufferView { lines: self.offscreen@.lines, ..old(self).buffer() }),
                d.top <= i <= d.top + d.height,
                forall|a: int, b: int|
                    #![trigger self.offscreen@.lines[a][b]]
                    0 <= a < g0.len() && 0 <= b < g0[a].len() ==> if in_area(d, a, b) && a < i {
                        area_cell(g0[a][b], self.offscreen@.lines[a][b], bg, fg, styles)
                    } else {
                        self.offscreen@.lines[a][b] == g0[a][b]
                    },
            decreases d.top + d.height - i,
        {
            let mut j = d.left;
            while j < d.left + d.width
                invariant
                    d == self.dimensions,
                    d == old(self).area(),
                    self.cursor == old(self).pen(),
                    g0 == old(self).buffer().lines,
                    grid_shaped(g0, size),
                    self.offscreen.wf(),
                    size == self.offscreen@.size,
                    area_fits(d, size),
                    self.offscreen@ == (BufferView { lines: self.offscreen@.lines, ..old(self).buffer() }),
                    d.top <= i < d.top + d.height,
                    d.left <= j <= d.left + d.width,
                    forall|a: int, b: int|
                        #![trigger self.offscreen@.lines[a][b]]
                        0 <= a < g0.len() && 0 <= b < g0[a].len() ==> if in_area(d, a, b) && (a < i
                            || (a == i && b < j)) {
                            area_cell(g0[a][b], self.offscreen@.lines[a][b], bg, fg, styles)
                        } else {
                            self.offscreen@.lines[a][b] == g0[a][b]
                        },
                decreases d.left + d.width - j,
            {
                let ghost before = self.offscreen@.lines;
                let mut c = self.offscreen.get(i, j).clone();
                match bg {
                    Some(color) => c.set_background(color),
                    None => {},
                }
                match fg {
                    Some(color) => c.set_foreground(color),
                    None => {},
                }
                match styles {
                    Some(st) => c.set_styles(st),
                    None => {},
                }
                assert(area_cell(g0[i as int][j as int], c@, bg, fg, styles));
                self.offscreen.set(i as usize, j as usize, c);
                proof {
                    lemma_put_cell_shaped(before, size, i as int, j as int, c@);
                }
                j = j + 1;
            }
            i = i + 1;
        }
    }

    /// Paint the background of the whole area.
    pub fn set_background(&mut self, color: BgColor)
        requires
            old(self).wf(),
        ensures
            final(self).wf(),
            final(self).area() == old(self).area(),
            final(self).pen() == old(self).pen(),
            final(self).buffer() == (BufferView { lines: final(self).buffer().lines, ..old(self).buffer() }),
            forall|i: int, j: int|
                #![trigger final(self).buffer().lines[i][j]]
                0 <= i < old(self).buffer().lines.len() && 0 <= j < old(self).buffer().lines[i].len()
                    ==> final(self).buffer().lines[i][j] == if in_area(old(self).area(), i, j) {
                    CharxelView { background: color, ..old(self).buffer().lines[i][j] }
                } else {
                    old(self).buffer().lines[i][j]
                },
    {
        self.fill_area(Some(color), None, None);
    }

    /// Paint the foreground of the whole area.
    pub fn set_foreground(&mut self, color: FgColor)
        requires
            old(self).wf(),
        ensures
            final(self).wf(),
            final(self).area() == old(self).area(),
            final(self).pen() == old(self).pen(),
            final(self).buffer() == (BufferView { lines: final(self).buffer().lines, ..old(self).buffer() }),
            forall|i: int, j: int|
                #![trigger final(self).buffer().lines[i][j]]
                0 <= i < old(self).buffer().lines.len() && 0 <= j < old(self).buffer().lines[i].len()
                    ==> final(self).buffer().lines[i][j] == if in_area(old(self).area(), i, j) {
                    CharxelView { foreground: color, ..old(self).buffer().lines[i][j] }
                } else {
                    old(self).buffer().lines[i][j]
                },
    {
        self.fill_area(None, Some(color), None);
    }

    /// Give every cell of the area exactly the styles `styles`.
    pub fn set_styles(&mut self, styles: &[Style])
        requires
            old(self).wf(),
        ensures
            final(self).wf(),
            final(self).area() == old(self).area(),
            final(self).pen() == old(self).pen(),
            final(self).buffer() == (BufferView { lines: final(self).buffer().lines, ..old(self).buffer() }),
            forall|i: int, j: int|
                #![trigger final(self).buffer().lines[i][j]]
                0 <= i < old(self).buffer().lines.len() && 0 <= j < old(self).buffer().lines[i].len()
                    ==> if in_area(old(self).area(), i, j) {
                    styles_set(old(self).buffer().lines[i][j], final(self).buffer().lines[i][j], styles@)
                } else {
                    final(self).buffer().lines[i][j] == old(self).buffer().lines[i][j]
                },
    {
        self.fill_area(None, None, Some(styles));
    }

    /// Write the cells at the pen, moving it right.
    #[verifier::rlimit(40)]
    pub fn write(&mut self, charxels: Charxels)
        requires
            old(self).wf(),
        ensures
            final(self).wf(),
            final(self).area() == old(self).area(),
            final(self).buffer() == (BufferView {
                lines: write_run(
                    PenState { lines: old(self).buffer().lines, left: old(self).pen().left as int, stopped: false },
                    charxels@,
                    old(self).area(),
                    old(self).pen().top as int,
                ).lines,
                ..old(self).buffer()
            }),
            final(self).pen().top == old(self).pen().top,
            final(self).pen().left == write_run(
                PenState { lines: old(self).buffer().lines, left: old(self).pen().left as int, stopped: false },
                charxels@,
                old(self).area(),
                old(self).pen().top as int,
            ).left,
    {
        let d = self.dimensions;
        let ghost size = self.offscreen@.size;
        let ghost init = PenState {
            lines: old(self).buffer().lines,
            left: old(self).pen().left as int,
            stopped: false,
        };
        let ghost top = self.cursor.top as int;
        let ghost cs = charxels@;
        let n = charxels.0.len();
        let mut k: usize = 0;
        let mut stopped = false;
        assert(cs.take(0) =~= Seq::<CharxelView>::empty());
        while k < n && !stopped
            invariant
                d == self.dimensions,
                d == old(self).area(),
                n == charxels.0.len(),
                cs == charxels@,
                k <= n,
                top == self.cursor.top,
                top == old(self).pen().top,
                self.offscreen.wf(),
                size == self.offscreen@.size,
                area_fits(d, size),
                self.offscreen@ == (BufferView { lines: self.offscreen@.lines, ..old(self).buffer() }),
                write_run(init, cs.take(k as int), d, top).lines == self.offscreen@.lines,
                write_run(init, cs.take(k as int), d, top).left == self.cursor.left,
                write_run(init, cs.take(k as int), d, top).stopped == stopped,
            decreases n - k + (if stopped { 0int } else { 1int }),
        {
            let ghost st = write_run(init, cs.take(k as int), d, top);
            assert(cs.take(k + 1).drop_last() =~= cs.take(k as int));
            let c = &charxels.0[k];
            assert(c@ == cs[k as int]);
            if self.cursor.top >= d.height || self.cursor.left >= d.width {
                stopped = true;
            } else {
                let g = c.grapheme.as_str();
                if g.unicode_len() == 1 && g.get_char(0) == '\t' {
                    assert(c@.grapheme =~= seq!['\t']);
                    let left = self.cursor.left as u32;
                    let stop = (left / 8 + 1) * 8;
                    let limit = if stop <= d.width as u32 {
                        stop
                    } else {
                        d.width as u32
                    };
                    let spaces = (limit - left) as u16;
                    let space = Charxel {
                        grapheme: Grapheme::default(),
                        foreground: c.foreground,
                        background: c.background,
                        styles: c.styles,
                        continuation: false,
                    };
                    assert(space@ == space_like(c@));
                    let row = d.top + self.cursor.top;
                    let col0 = d.left + self.cursor.left;
                    let ghost lines0 = self.offscreen@.lines;
                    let left0 = self.cursor.left;
                    let mut s: u16 = 0;
                    while s < spaces
                        invariant
                            d == self.dimensions,
                            s <= spaces,
                            left0 + spaces <= d.width,
                            self.cursor.left == left0 + s,
                            row == d.top + self.cursor.top,
                            col0 + s == d.left + self.cursor.left,
                            self.cursor.top < d.height,
                            self.cursor.top == top,
                            self.offscreen.wf(),
                            size == self.offscreen@.size,
                            area_fits(d, size),
                            self.offscreen@ == (BufferView { lines: self.offscreen@.lines, ..old(self).buffer() }),
                            self.offscreen@.lines == fill_cells(lines0, row as int, col0 as int, s as int, space@),
                        ensures
                            s == spaces,
                        decreases spaces - s,
                    {
                        if self.cursor.left >= d.width {
                            break;
                        }
                        let ghost before = self.offscreen@.lines;
                        self.offscreen.set(
                            (d.top + self.cursor.top) as usize,
                            (d.left + self.cursor.left) as usize,
                            space.clone(),
                        );
                        proof {
                            lemma_put_cell_shaped(before, size, row as int, col0 + s, space@);
                        }
                        self.cursor.left = self.cursor.left + 1;
                        s = s + 1;
                    }
                    assert(s == spaces);
                } else {
                    let w = c.display_width();
                    if w > 1 && self.cursor.left as u32 + w as u32 > d.width as u32 {
                        stopped = true;
                    } else {
                        let row = d.top + self.cursor.top;
                        let col0 = d.left + self.cursor.left;
                        let ghost before = self.offscreen@.lines;
                        self.offscreen.set(row as usize, col0 as usize, c.clone());
                        proof {
                            lemma_put_cell_shaped(before, size, row as int, col0 as int, c@);
                        }
                        let ghost placed = self.offscreen@.lines;
                        let mut e: u16 = 1;
                        while e < w
                            invariant
                                1 <= e,
                                e <= w || e == 1,
                                d == self.dimensions,
                                self.cursor.top == top,
                                w > 1 ==> self.cursor.left + w <= d.width,
                                self.cursor.left < d.width,
                                row == d.top + self.cursor.top,
                                col0 == d.left + self.cursor.left,
                                self.offscreen.wf(),
                                size == self.offscreen@.size,
                                area_fits(d, size),
                                self.offscreen@ == (BufferView { lines: self.offscreen@.lines, ..old(self).buffer() }),
                                self.offscreen@.lines == mark_wide(placed, row as int, col0 as int, e as int),
                            decreases w - e,
                        {
                            let col = col0 as u32 + e as u32;
                            if col < d.left as u32 + d.width as u32 {
                                let ghost mid = self.offscreen@.lines;
                                self.offscreen.set(row as usize, col as usize, Charxel::from_continuation(ContinuationCell));
                                proof {
                                    lemma_put_cell_shaped(mid, size, row as int, col as int, continuation_view());
                                }
                            }
                            e = e + 1;
                        }
                        self.cursor.left = self.cursor.left + w;
                    }
                }
            }
            k = k + 1;
        }
        proof {
            if stopped {
                lemma_write_run_stays_stopped(init, cs, d, top, k as int);
            } else {
                assert(cs.take(k as int) =~= cs);
            }
        }
    }

    /// Move the pen to `at`, relative to the area, and write the cells.
    pub fn write_at(&mut self, at: CursorPos, charxels: Charxels)
        requires
            old(self).wf(),
        ensures
            final(self).wf(),
            final(self).area() == old(self).area(),
            final(self).buffer() == (BufferView {
                lines: write_run(
                    PenState { lines: old(self).buffer().lines, left: at.left as int, stopped: false },
                    charxels@,
                    old(self).area(),
                    at.top as int,
                ).lines,
                ..old(self).buffer()
            }),
            final(self).pen().top == at.top,
            final(self).pen().left == write_run(
                PenState { lines: old(self).buffer().lines, left: at.left as int, stopped: false },
                charxels@,
                old(self).area(),
                at.top as int,
            ).left,
    {
        self.cursor = at;
        self.write(charxels);
    }

    /// Show every occurrence of `query` in the area, compared without case
    /// grapheme by grapheme within each row, in the colors `fg` and `bg`.
    #[verifier::rlimit(60)]
    #[verifier::spinoff_prover]
    pub fn highlight_text(&mut self, query: &str, fg: FgColor, bg: BgColor)
        requires
            old(self).wf(),
        ensures
            final(self).wf(),
            final(self).area() == old(self).area(),
            final(self).pen() == old(self).pen(),
            final(self).buffer() == (BufferView { lines: final(self).buffer().lines, ..old(self).buffer() }),
            forall|i: int, j: int|
                #![trigger final(self).buffer().lines[i][j]]
                0 <= i < old(self).buffer().lines.len() && 0 <= j < old(self).buffer().lines[i].len()
                    ==> final(self).buffer().lines[i][j] == if in_area(old(self).area(), i, j)
                    && query_keys(query@).len() > 0 && covered(
                    row_keys(old(self).buffer().lines[i], old(self).area()),
                    query_keys(query@),
                    j - old(self).area().left,
                ) {
                    hit(old(self).buffer().lines[i][j], fg, bg)
                } else {
                    old(self).buffer().lines[i][j]
                },
    {
        let ghost q = query_keys(query@);
        let gs = graphemes(query);
        let mut qk: Vec<String> = Vec::new();
        for k in 0..gs.len()
            invariant
                views(gs@) == grapheme_clusters(query@),
                q == query_keys(query@),
                views(qk@) == q.take(k as int),
        {
            let l = to_lowercase(gs[k].as_str());
            assert(views(gs@)[k as int] == gs@[k as int]@);
            let ghost before = qk@;
            qk.push(l);
            assert(views(qk@) =~= views(before).push(l@));
            assert(l@ == q[k as int]);
            assert(views(qk@) =~= q.take(k + 1));
        }
        assert(q.take(gs.len() as int) =~= q);
        let qlen = qk.len();
        if qlen == 0 {
            return;
        }
        let d = self.dimensions;
        let ghost g0 = self.offscreen@.lines;
        let ghost size = self.offscreen@.size;
        let mut row = d.top;
        while row < d.top + d.height
            invariant
                d == self.dimensions,
                d == old(self).area(),
                self.cursor == old(self).pen(),
                self.offscreen.wf(),
                size == self.offscreen@.size,
                g0 == old(self).buffer().lines,
                area_fits(d, size),
                grid_shaped(g0, size),
                views(qk@) == q,
                qlen == q.len(),
                qlen > 0,
                self.offscreen@ == (BufferView { lines: self.offscreen@.lines, ..old(self).buffer() }),
                d.top <= row <= d.top + d.height,
                forall|a: int, b: int|
                    #![trigger self.offscreen@.lines[a][b]]
                    0 <= a < g0.len() && 0 <= b < g0[a].len() ==> self.offscreen@.lines[a][b] == if a
                        < row && in_area(d, a, b) && covered(row_keys(g0[a], d), q, b - d.left) {
                        hit(g0[a][b], fg, bg)
                    } else {
                        g0[a][b]
                    },
            decreases d.top + d.height - row,
        {
            let ghost keys = row_keys(g0[row as int], d);
            let row_len = d.width as usize;
            if row_len >= qlen {
                let mut rk: Vec<String> = Vec::new();
                let mut col = d.left;
                while col < d.left + d.width
                    invariant
                        d == self.dimensions,
                        area_fits(d, size),
                        grid_shaped(g0, size),
                        self.offscreen.wf(),
                        self.offscreen@.size == size,
                        d.top <= row < d.top + d.height,
                        d.left <= col <= d.left + d.width,
                        keys == row_keys(g0[row as int], d),
                        rk@.len() == col - d.left,
                        forall|a: int, b: int|
                            #![trigger self.offscreen@.lines[a][b]]
                            0 <= a < g0.len() && 0 <= b < g0[a].len() && a >= row ==> self.offscreen@.lines[a][b] == g0[a][b],
                        forall|c: int| 0 <= c < rk@.len() ==> #[trigger] rk@[c]@ == keys[c],
                    decreases d.left + d.width - col,
                {
                    let cell = self.offscreen.get(row, col);
                    assert(cell@ == g0[row as int][col as int]);
                    let l = to_lowercase(cell.grapheme.as_str());
                    rk.push(l);
                    col = col + 1;
                }
                let mut i: usize = 0;
                while i <= row_len - qlen
                    invariant
                        d == self.dimensions,
                        d == old(self).area(),
                        self.cursor == old(self).pen(),
                        self.offscreen.wf(),
                        size == self.offscreen@.size,
                        g0 == old(self).buffer().lines,
                        area_fits(d, size),
                        grid_shaped(g0, size),
                        views(qk@) == q,
                        qlen == q.len(),
                        0 < qlen <= row_len,
                        row_len == d.width,
                        rk@.len() == row_len,
                        keys == row_keys(g0[row as int], d),
                        forall|c: int| 0 <= c < rk@.len() ==> #[trigger] rk@[c]@ == keys[c],
                        self.offscreen@ == (BufferView { lines: self.offscreen@.lines, ..old(self).buffer() }),
                        d.top <= row < d.top + d.height,
                        i <= row_len - qlen + 1,
                        forall|a: int, b: int|
                            #![trigger self.offscreen@.lines[a][b]]
                            0 <= a < g0.len() && 0 <= b < g0[a].len() ==> self.offscreen@.lines[a][b]
                                == if a < row && in_area(d, a, b) && covered(row_keys(g0[a], d), q, b - d.left) {
                                hit(g0[a][b], fg, bg)
                            } else if a == row && in_area(d, a, b) && covered_before(keys, q, b - d.left, i as int) {
                                hit(g0[a][b], fg, bg)
                            } else {
                                g0[a][b]
                            },
                    decreases row_len - qlen + 1 - i,
                {
                    let mut matched = true;
                    let mut j: usize = 0;
                    while j < qlen
                        invariant
                            0 < qlen <= row_len,
                            i + qlen <= row_len,
                            rk@.len() == row_len,
                            views(qk@) == q,
                            qlen == q.len(),
                            forall|c: int| 0 <= c < rk@.len() ==> #[trigger] rk@[c]@ == keys[c],
                            j <= qlen,
                            matched == (forall|m: int| 0 <= m < j ==> keys[i + m] == q[m]),
                        decreases qlen - j,
                    {
                        assert(views(qk@)[j as int] == qk@[j as int]@);
                        if !str_eq(rk[i + j].as_str(), qk[j].as_str()) {
                            matched = false;
                        }
                        j = j + 1;
                    }
                    assert(keys.len() == row_len);
                    assert(matched == match_at(keys, q, i as int));
                    if matched {
                        let mut j: usize = 0;
                        while j < qlen
                            invariant
                                d == self.dimensions,
                                self.cursor == old(self).pen(),
                                self.offscreen.wf(),
                                size == self.offscreen@.size,
                                area_fits(d, size),
                                grid_shaped(g0, size),
                                qlen == q.len(),
                                0 < qlen <= row_len,
                                row_len == d.width,
                                i + qlen <= row_len,
                                j <= qlen,
                                match_at(keys, q, i as int),
                                self.offscreen@ == (BufferView { lines: self.offscreen@.lines, ..old(self).buffer() }),
                                d.top <= row < d.top + d.height,
                                forall|a: int, b: int|
                                    #![trigger self.offscreen@.lines[a][b]]
                                    0 <= a < g0.len() && 0 <= b < g0[a].len() ==> self.offscreen@.lines[a][b]
                                        == if a < row && in_area(d, a, b) && covered(row_keys(g0[a], d), q, b - d.left) {
                                        hit(g0[a][b], fg, bg)
                                    } else if a == row && in_area(d, a, b) && (covered_before(keys, q, b - d.left, i as int)
                                        || (i <= b - d.left < i + j)) {
                                        hit(g0[a][b], fg, bg)
                                    } else {
                                        g0[a][b]
                                    },
                            decreases qlen - j,
                        {
                            let col = d.left + (i + j) as u16;
                            let ghost before = self.offscreen@.lines;
                            let mut c = self.offscreen.get(row, col).clone();
                            c.set_foreground(fg);
                            c.set_background(bg);
                            self.offscreen.set(row as usize, col as usize, c);
                            proof {
                                lemma_put_cell_shaped(before, size, row as int, col as int, c@);
                            }
                            j = j + 1;
                        }
                        proof {
                            assert forall|b: int| 0 <= b < row_len implies (covered_before(keys, q, b, i + 1)
                                <==> (covered_before(keys, q, b, i as int) || (i <= b < i + qlen))) by {
                                if i <= b < i + qlen {
                                    assert(match_at(keys, q, i as int));
                                }
                            }
                        }
                    } else {
                        proof {
                            assert forall|b: int| 0 <= b < row_len implies (covered_before(keys, q, b, i + 1)
                                <==> covered_before(keys, q, b, i as int)) by {
                                if covered_before(keys, q, b, i + 1) {
                                    let w = choose|w: int| 0 <= w < i + 1 && #[trigger] match_at(keys, q, w) && w <= b < w + q.len();
                                    assert(w != i);
                                }
                            }
                        }
                    }
                    i = i + 1;
                }
                proof {
                    assert forall|b: int| 0 <= b < row_len implies (covered_before(keys, q, b, i as int)
                        <==> covered(keys, q, b)) by {
                        if covered(keys, q, b) {
                            let w = choose|w: int| #[trigger] match_at(keys, q, w) && w <= b < w + q.len();
                            assert(w < i);
                        }
                    }
                }
            } else {
                proof {
                    assert forall|b: int| 0 <= b < row_len implies !covered(keys, q, b) by {
                        if covered(keys, q, b) {
                            let w = choose|w: int| #[trigger] match_at(keys, q, w) && w <= b < w + q.len();
                        }
                    }
                }
            }
            row = row + 1;
        }
    }

    pub fn set_cursor(&mut self, position: CursorPos)
        ensures
            final(self).area() == old(self).area(),
            final(self).pen() == old(self).pen(),
            final(self).buffer() == (BufferView { cursor: position, ..old(self).buffer() }),
    {
        self.offscreen.set_cursor(position);
    }

    pub fn set_cursor_with_priority(&mut self, position: CursorPos, priority: u8)
        ensures
            final(self).area() == old(self).area(),
            final(self).pen() == old(self).pen(),
            priority >= old(self).buffer().cursor_priority ==> final(self).buffer() == (BufferView {
                cursor: position,
                cursor_priority: priority,
                ..old(self).buffer()
            }),
            priority < old(self).buffer().cursor_priority ==> final(self).buffer() == old(self).buffer(),
    {
        self.offscreen.set_cursor_with_priority(position, priority);
    }

    pub fn set_cursor_style(&mut self, style: CursorStyle)
        ensures
            final(self).area() == old(self).area(),
            final(self).pen() == old(self).pen(),
            final(self).buffer() == (BufferView { cursor_style: style, ..old(self).buffer() }),
    {
        self.offscreen.set_cursor_style(style);
    }

    pub fn set_cursor_visible(&mut self, visible: bool)
        ensures
            final(self).area() == old(self).area(),
            final(self).pen() == old(self).pen(),
            final(self).buffer() == (BufferView { show_cursor: visible, ..old(self).buffer() }),
    {
        self.offscreen.set_cursor_visible(visible);
    }

    pub fn width(&self) -> (r: u16)
        ensures
            r == self.area().width,
    {
        self.dimensions.width
    }

    pub fn height(&self) -> (r: u16)
        ensures
            r == self.area().height,
    {
        self.dimensions.height
    }
}

/// How a cell of the area changes when it is painted: each given part is
/// replaced, the rest kept.
pub open spec fn area_cell(
    before: CharxelView,
    after: CharxelView,
    bg: Option<BgColor>,
    fg: Option<FgColor>,
    styles: Option<&[Style]>,
) -> bool {
    &&& after.grapheme == before.grapheme
    &&& after.continuation == before.continuation
    &&& after.background == match bg {
        Some(c) => c,
        None => before.background,
    }
    &&& after.foreground == match fg {
        Some(c) => c,
        None => before.foreground,
    }
    &&& match styles {
        Some(st) => forall|t: Style| after.styles.has(t) == st@.contains(t),
        None => after.styles == before.styles,
    }
}

/// The text of the first `width` cells of row `row`.
pub fn row_text(buf: &OffscreenRenderBuffer, row: u16, width: u16) -> (r: String)
    requires
        row < buf@.lines.len(),
        width <= buf@.lines[row as int].len(),
    ensures
        r@ == run_text(buf@.lines[row as int].take(width as int)),
{
    let ghost line = buf@.lines[row as int];
    let mut r = String::new();
    for col in 0..width
        invariant
            row < buf@.lines.len(),
            line == buf@.lines[row as int],
            width <= line.len(),
            r@ == run_text(line.take(col as int)),
    {
        let c = buf.get(row, col);
        proof {
            let g = line.take(col as int).map_values(|x: CharxelView| x.grapheme);
            g.lemma_flatten_push(c@.grapheme);
            assert(g.push(c@.grapheme) =~= line.take(col + 1).map_values(|x: CharxelView| x.grapheme));
        }
        r.append(c.grapheme.as_str());
    }
    r
}

impl Clone for OffscreenRenderBuffer {
    /// A copy of the frame; the copy has no pending full redraw.
    fn clone(&self) -> (r: Self)
        ensures
            r@ == (BufferView { force_full_render: false, ..self@ }),
    {
        let mut lines: Vec<OffscreenLine> = Vec::new();
        for i in 0..self.lines.len()
            invariant
                line_views(lines@) == line_views(self.lines@).take(i as int),
        {
            let l = self.lines[i].clone();
            let ghost before = lines@;
            lines.push(l);
            assert(line_views(lines@) =~= line_views(before).push(l@));
            assert(line_views(lines@) =~= line_views(self.lines@).take(i + 1));
        }
        assert(line_views(self.lines@).take(self.lines.len() as int) =~= line_views(self.lines@));
        OffscreenRenderBuffer {
            lines,
            size: self.size,
            cursor: self.cursor,
            cursor_priority: self.cursor_priority,
            cursor_style: self.cursor_style,
            show_cursor: self.show_cursor,
            do_bell: self.do_bell,
            force_full_render: false,
        }
    }
}

impl Clone for ContinuousDiff {
    fn clone(&self) -> (r: Self)
        ensures
            r@ == self@,
    {
        let mut v: Vec<Charxel> = Vec::new();
        for j in 0..self.charxels.len()
            invariant
                cell_views(v@) == cell_views(self.charxels@).take(j as int),
        {
            let c = self.charxels[j].clone();
            proof {
                lemma_cell_views_push(v@, c);
            }
            v.push(c);
            assert(cell_views(v@) =~= cell_views(self.charxels@).take(j + 1));
        }
        assert(cell_views(self.charxels@).take(self.charxels.len() as int) =~= cell_views(self.charxels@));
        ContinuousDiff { pos: self.pos, charxels: v }
    }
}


/// A cell in a dump of the buffer: ` [grapheme w=width]`.
pub open spec fn cell_dump(c: CharxelView) -> Seq<char> {
    seq![' ', '['] + c.grapheme + seq![' ', 'w', '='] + decimal(cell_width(c) as nat) + seq![']']
}

pub open spec fn cells_dump(cs: Seq<CharxelView>) -> Seq<char>
    decreases cs.len(),
{
    if cs.len() == 0 {
        Seq::empty()
    } else {
        cells_dump(cs.drop_last()) + cell_dump(cs.last())
    }
}

/// A dump of the rows: each row numbered on three digits, then its cells.
pub open spec fn rows_dump(lines: Seq<Seq<CharxelView>>) -> Seq<char>
    decreases lines.len(),
{
    if lines.len() == 0 {
        Seq::empty()
    } else {
        rows_dump(lines.drop_last()) + seq!['R', 'O', 'W', ' '] + zero_padded((lines.len() - 1) as nat, 3)
            + seq![':'] + cells_dump(lines.last()) + seq!['\n']
    }
}

fn push_cell_dump(out: &mut String, c: &Charxel)
    ensures
        final(out)@ == old(out)@ + cell_dump(c@),
{
    push_char(out, ' ');
    push_char(out, '[');
    out.append(c.grapheme.as_str());
    push_char(out, ' ');
    push_char(out, 'w');
    push_char(out, '=');
    let w = c.display_width();
    out.append(decimal_string(w as u64).as_str());
    push_char(out, ']');
    assert(final(out)@ =~= old(out)@ + cell_dump(c@));
}

impl OffscreenRenderBuffer {
    /// The cells of the buffer as text, row by row, for inspection.
    pub fn dump_text(&self) -> (r: String)
        ensures
            r@ == rows_dump(self@.lines),
    {
        let ghost all = self@.lines;
        let mut out = String::new();
        let mut row: usize = 0;
        while row < self.lines.len()
            invariant
                0 <= row <= self.lines.len(),
                all == self@.lines,
                all.len() == self.lines.len(),
                out@ == rows_dump(all.take(row as int)),
            decreases self.lines.len() - row,
        {
            push_char(&mut out, 'R');
            push_char(&mut out, 'O');
            push_char(&mut out, 'W');
            push_char(&mut out, ' ');
            out.append(zero_padded_string(row as u64, 3).as_str());
            push_char(&mut out, ':');
            let line = &self.lines[row];
            let ghost start = out@;
            assert(all[row as int] == line@);
            let mut k: usize = 0;
            while k < line.charxels.len()
                invariant
                    0 <= k <= line.charxels.len(),
                    out@ == start + cells_dump(line@.take(k as int)),
                    line@ == cell_views(line.charxels@),
                decreases line.charxels.len() - k,
            {
                push_cell_dump(&mut out, &line.charxels[k]);
                assert(line@.take(k + 1).drop_last() =~= line@.take(k as int));
                assert(line@.take(k + 1).last() == line.charxels@[k as int]@);
                assert(out@ =~= start + cells_dump(line@.take(k + 1)));
                k = k + 1;
            }
            assert(line@.take(line.charxels.len() as int) =~= line@);
            push_char(&mut out, '\n');
            proof {
                assert(all.take(row + 1).drop_last() =~= all.take(row as int));
                assert(all.take(row + 1).last() == line@);
                assert(out@ =~= rows_dump(all.take(row + 1)));
            }
            row = row + 1;
        }
        assert(all.take(row as int) =~= all);
        out
    }
}

} // verus!
