//! Character cells: a grapheme with colors and text attributes, and runs of
//! cells with their display width.

use vstd::prelude::*;
use crate::color::{BgColor, Color, ColorTuple, FgColor};
use crate::layout::Style;
use crate::text::is_clean;
use crate::unicode::{
    copy_str, display_width, grapheme_clusters, graphemes, split_word_bounds, text_display_width,
    views, word_bound_segments,
};

verus! {

/// One grapheme cluster.
#[derive(Debug)]
pub struct Grapheme(pub String);

impl Clone for Grapheme {
    fn clone(&self) -> (r: Self)
        ensures
            r == *self,
    {
        Grapheme(self.0.clone())
    }
}

impl Grapheme {
    pub fn as_str(&self) -> (r: &str)
        ensures
            r@ == self.0@,
    {
        self.0.as_str()
    }

    pub fn from_str(value: &str) -> (r: Self)
        ensures
            r.0@ == value@,
    {
        Grapheme(copy_str(value))
    }

    /// Whether both hold the same text.
    pub fn same(&self, other: &Grapheme) -> (r: bool)
        ensures
            r == (self.0@ == other.0@),
    {
        self.0 == other.0
    }
}

impl Default for Grapheme {
    fn default() -> (r: Self)
        ensures
            r.0@ == seq![' '],
    {
        proof {
            reveal_strlit(" ");
        }
        Grapheme(copy_str(" "))
    }
}

/// A set of text attributes.
#[derive(Clone, Copy, Debug, PartialEq, Eq, Structural)]
pub struct StyleSet {
    pub bold: bool,
    pub faint: bool,
    pub italic: bool,
    pub underline: bool,
    pub blink: bool,
    pub invert: bool,
    pub crossed_out: bool,
    pub framed: bool,
}

impl StyleSet {
    pub open spec fn has(self, s: Style) -> bool {
        match s {
            Style::Bold => self.bold,
            Style::Faint => self.faint,
            Style::Italic => self.italic,
            Style::Underline => self.underline,
            Style::Blink => self.blink,
            Style::Invert => self.invert,
            Style::CrossedOut => self.crossed_out,
            Style::Framed => self.framed,
        }
    }

    /// The styles in the set.
    pub open spec fn view(self) -> Set<Style> {
        Set::new(|s: Style| self.has(s))
    }

    pub fn empty() -> (r: Self)
        ensures
            forall|s: Style| !r.has(s),
            r == (StyleSet {
                bold: false,
                faint: false,
                italic: false,
                underline: false,
                blink: false,
                invert: false,
                crossed_out: false,
                framed: false,
            }),
    {
        StyleSet {
            bold: false,
            faint: false,
            italic: false,
            underline: false,
            blink: false,
            invert: false,
            crossed_out: false,
            framed: false,
        }
    }

    pub fn contains(&self, s: Style) -> (r: bool)
        ensures
            r == self.has(s),
    {
        match s {
            Style::Bold => self.bold,
            Style::Faint => self.faint,
            Style::Italic => self.italic,
            Style::Underline => self.underline,
            Style::Blink => self.blink,
            Style::Invert => self.invert,
            Style::CrossedOut => self.crossed_out,
            Style::Framed => self.framed,
        }
    }

    pub fn insert(&mut self, s: Style)
        ensures
            forall|t: Style| final(self).has(t) == (old(self).has(t) || t == s),
    {
        match s {
            Style::Bold => self.bold = true,
            Style::Faint => self.faint = true,
            Style::Italic => self.italic = true,
            Style::Underline => self.underline = true,
            Style::Blink => self.blink = true,
            Style::Invert => self.invert = true,
            Style::CrossedOut => self.crossed_out = true,
            Style::Framed => self.framed = true,
        }
    }

    /// The set of the styles in `styles`.
    pub fn from_slice(styles: &[Style]) -> (r: Self)
        ensures
            forall|t: Style| r.has(t) == styles@.contains(t),
    {
        let mut r = StyleSet::empty();
        for i in 0..styles.len()
            invariant
                forall|t: Style| r.has(t) == styles@.take(i as int).contains(t),
        {
            r.insert(styles[i]);
            assert forall|t: Style| r.has(t) == styles@.take(i + 1).contains(t) by {
                if styles@.take(i + 1).contains(t) {
                    let j = choose|j: int| 0 <= j < i + 1 && #[trigger] styles@.take(i + 1)[j] == t;
                    if j < i {
                        assert(styles@.take(i as int)[j] == t);
                    }
                }
                if styles@.take(i as int).contains(t) {
                    let j = choose|j: int| 0 <= j < i && #[trigger] styles@.take(i as int)[j] == t;
                    assert(styles@.take(i + 1)[j] == t);
                }
                if t == styles@[i as int] {
                    assert(styles@.take(i + 1)[i as int] == t);
                }
            }
        }
        assert(styles@.take(styles.len() as int) =~= styles@);
        r
    }
}

/// The content of a cell: grapheme text, colors, styles, and whether it is
/// the right part of a wide character.
pub struct CharxelView {
    pub grapheme: Seq<char>,
    pub foreground: FgColor,
    pub background: BgColor,
    pub styles: StyleSet,
    pub continuation: bool,
}

/// A character cell.
#[derive(Debug)]
pub struct Charxel {
    pub grapheme: Grapheme,
    pub foreground: FgColor,
    pub background: BgColor,
    pub styles: StyleSet,
    pub continuation: bool,
}

/// Marker for the right part of a wide character.
pub struct ContinuationCell;

impl Clone for Charxel {
    fn clone(&self) -> (r: Self)
        ensures
            r == *self,
    {
        Charxel {
            grapheme: self.grapheme.clone(),
            foreground: self.foreground,
            background: self.background,
            styles: self.styles,
            continuation: self.continuation,
        }
    }
}

impl Default for Charxel {
    fn default() -> (r: Self)
        ensures
            r@ == Charxel::blank_view(),
    {
        Charxel::new(Grapheme::default())
    }
}

impl PartialEq for Charxel {
    fn eq(&self, other: &Self) -> (r: bool) {
        self.same(other)
    }
}

impl vstd::std_specs::cmp::PartialEqSpecImpl for Charxel {
    open spec fn obeys_eq_spec() -> bool {
        true
    }

    open spec fn eq_spec(&self, other: &Self) -> bool {
        self@ == other@
    }
}

impl Charxel {
    pub open spec fn view(&self) -> CharxelView {
        CharxelView {
            grapheme: self.grapheme.0@,
            foreground: self.foreground,
            background: self.background,
            styles: self.styles,
            continuation: self.continuation,
        }
    }

    /// A blank cell with default colors and no style.
    pub open spec fn blank_view() -> CharxelView {
        CharxelView {
            grapheme: seq![' '],
            foreground: FgColor(Color::Default),
            background: BgColor(Color::Default),
            styles: StyleSet {
                bold: false,
                faint: false,
                italic: false,
                underline: false,
                blink: false,
                invert: false,
                crossed_out: false,
                framed: false,
            },
            continuation: false,
        }
    }

    pub fn new(grapheme: Grapheme) -> (r: Self)
        ensures
            r@ == (CharxelView { grapheme: grapheme.0@, ..Charxel::blank_view() }),
    {
        Charxel {
            grapheme,
            foreground: FgColor(Color::Default),
            background: BgColor(Color::Default),
            styles: StyleSet::empty(),
            continuation: false,
        }
    }

    /// The right part of a wide character: empty text, default colors.
    pub fn from_continuation(_c: ContinuationCell) -> (r: Self)
        ensures
            r@ == (CharxelView {
                grapheme: Seq::<char>::empty(),
                continuation: true,
                ..Charxel::blank_view()
            }),
    {
        Charxel {
            grapheme: Grapheme(String::new()),
            foreground: FgColor(Color::Default),
            background: BgColor(Color::Default),
            styles: StyleSet::empty(),
            continuation: true,
        }
    }

    /// Whether both cells hold the same content.
    pub fn same(&self, other: &Charxel) -> (r: bool)
        ensures
            r == (self@ == other@),
    {
        self.grapheme.same(&other.grapheme) && self.foreground == other.foreground
            && self.background == other.background && self.styles == other.styles
            && self.continuation == other.continuation
    }

    pub fn set_color(&mut self, color: ColorTuple)
        ensures
            final(self)@ == (CharxelView { background: color.bg, foreground: color.fg, ..old(self)@ }),
    {
        self.background = color.bg;
        self.foreground = color.fg;
    }

    pub fn set_background(&mut self, color: BgColor)
        ensures
            final(self)@ == (CharxelView { background: color, ..old(self)@ }),
    {
        self.background = color;
    }

    pub fn set_foreground(&mut self, color: FgColor)
        ensures
            final(self)@ == (CharxelView { foreground: color, ..old(self)@ }),
    {
        self.foreground = color;
    }

    pub fn set_styles(&mut self, styles: &[Style])
        ensures
            final(self)@ == (CharxelView { styles: final(self).styles, ..old(self)@ }),
            forall|t: Style| final(self).styles.has(t) == styles@.contains(t),
    {
        self.styles = StyleSet::from_slice(styles);
    }

    pub fn add_style(&mut self, style: Style)
        ensures
            final(self)@ == (CharxelView { styles: final(self).styles, ..old(self)@ }),
            forall|t: Style| final(self).styles.has(t) == (old(self).styles.has(t) || t == style),
    {
        self.styles.insert(style);
    }

    pub fn set_grapheme(&mut self, grapheme: String)
        ensures
            final(self)@ == (CharxelView { grapheme: grapheme@, ..old(self)@ }),
    {
        self.grapheme = Grapheme(grapheme);
    }

    /// Columns the cell's grapheme takes on screen.
    pub fn display_width(&self) -> (w: u16)
        ensures
            w == cell_width(self@),
    {
        display_width(self.grapheme.as_str()) as u16
    }
}

/// Columns a cell takes on screen.
pub open spec fn cell_width(c: CharxelView) -> u16 {
    text_display_width(c.grapheme) as u16
}

/// `a` is `b` with `style` added.
pub open spec fn style_added(b: CharxelView, a: CharxelView, style: Style) -> bool {
    &&& a == (CharxelView { styles: a.styles, ..b })
    &&& forall|t: Style| a.styles.has(t) == (b.styles.has(t) || t == style)
}

/// `a` is `b` with exactly the styles `styles`.
pub open spec fn styles_set(b: CharxelView, a: CharxelView, styles: Seq<Style>) -> bool {
    &&& a == (CharxelView { styles: a.styles, ..b })
    &&& forall|t: Style| a.styles.has(t) == styles.contains(t)
}

/// Total width of a run of cells.
pub open spec fn run_width(s: Seq<CharxelView>) -> int
    decreases s.len(),
{
    if s.len() == 0 {
        0
    } else {
        run_width(s.drop_last()) + cell_width(s.last())
    }
}

pub open spec fn cell_views(v: Seq<Charxel>) -> Seq<CharxelView> {
    v.map_values(|c: Charxel| c@)
}

pub proof fn lemma_cell_views_push(v: Seq<Charxel>, c: Charxel)
    ensures
        cell_views(v.push(c)) == cell_views(v).push(c@),
{
    assert(cell_views(v.push(c)) =~= cell_views(v).push(c@));
}

pub proof fn lemma_cell_views_update(v: Seq<Charxel>, i: int, c: Charxel)
    requires
        0 <= i < v.len(),
    ensures
        cell_views(v.update(i, c)) == cell_views(v).update(i, c@),
{
    assert(cell_views(v.update(i, c)) =~= cell_views(v).update(i, c@));
}

pub proof fn lemma_run_width_prefix(s: Seq<CharxelView>, i: int)
    requires
        0 <= i <= s.len(),
    ensures
        0 <= run_width(s.take(i)) <= run_width(s),
    decreases s.len(),
{
    if i < s.len() {
        assert(s.drop_last().take(i) =~= s.take(i));
        lemma_run_width_prefix(s.drop_last(), i);
    } else {
        assert(s.take(i) =~= s);
    }
    if s.len() > 0 {
        lemma_run_width_prefix(s.drop_last(), s.len() - 1);
        assert(s.drop_last().take(s.len() - 1) =~= s.drop_last());
    }
}

pub proof fn lemma_run_width_concat(a: Seq<CharxelView>, b: Seq<CharxelView>)
    ensures
        run_width(a + b) == run_width(a) + run_width(b),
    decreases b.len(),
{
    if b.len() == 0 {
        assert(a + b =~= a);
    } else {
        lemma_run_width_concat(a, b.drop_last());
        assert((a + b).drop_last() =~= a + b.drop_last());
    }
}

/// Whether the cell holds a single newline.
pub open spec fn is_newline(c: CharxelView) -> bool {
    c.grapheme == seq!['\n']
}

/// The runs between newline cells: one more run than there are newlines.
pub open spec fn split_lines(s: Seq<CharxelView>) -> Seq<Seq<CharxelView>>
    decreases s.len(),
{
    if s.len() == 0 {
        seq![Seq::<CharxelView>::empty()]
    } else {
        let r = split_lines(s.drop_last());
        if is_newline(s.last()) {
            r.push(Seq::<CharxelView>::empty())
        } else {
            r.update(r.len() - 1, r.last().push(s.last()))
        }
    }
}

pub proof fn lemma_split_lines_nonempty(s: Seq<CharxelView>)
    ensures
        split_lines(s).len() >= 1,
    decreases s.len(),
{
    if s.len() > 0 {
        lemma_split_lines_nonempty(s.drop_last());
    }
}

/// The text of a run of cells: its graphemes, concatenated.
pub open spec fn run_text(s: Seq<CharxelView>) -> Seq<char> {
    s.map_values(|c: CharxelView| c.grapheme).flatten()
}

/// How many grapheme clusters each word-bound segment of `text` holds.
pub open spec fn word_sizes(text: Seq<char>) -> Seq<nat> {
    word_bound_segments(text).map_values(|w: Seq<char>| grapheme_clusters(w).len())
}

/// How many cells the groups of sizes `sizes` use up, at most all of them.
pub open spec fn consumed(n: nat, sizes: Seq<nat>) -> nat
    decreases sizes.len(),
{
    if sizes.len() == 0 {
        0
    } else {
        let p = consumed(n, sizes.drop_last());
        if p + sizes.last() <= n {
            (p + sizes.last()) as nat
        } else {
            n
        }
    }
}

/// Consecutive groups of the cells, of the sizes `sizes` in order; once the
/// cells run out the remaining groups are shorter or empty.
pub open spec fn word_groups(cells: Seq<CharxelView>, sizes: Seq<nat>) -> Seq<Seq<CharxelView>>
    decreases sizes.len(),
{
    if sizes.len() == 0 {
        Seq::empty()
    } else {
        let p = consumed(cells.len(), sizes.drop_last());
        word_groups(cells, sizes.drop_last()).push(
            cells.subrange(p as int, consumed(cells.len(), sizes) as int),
        )
    }
}

pub proof fn lemma_consumed_bound(n: nat, sizes: Seq<nat>)
    ensures
        consumed(n, sizes) <= n,
    decreases sizes.len(),
{
    if sizes.len() > 0 {
        lemma_consumed_bound(n, sizes.drop_last());
    }
}

/// A run of cells.
#[derive(Debug)]
pub struct Charxels(pub Vec<Charxel>);

impl Clone for Charxels {
    fn clone(&self) -> (r: Self)
        ensures
            cell_views(r.0@) == cell_views(self.0@),
    {
        let mut v: Vec<Charxel> = Vec::new();
        for i in 0..self.0.len()
            invariant
                cell_views(v@) == cell_views(self.0@).take(i as int),
        {
            let c = self.0[i].clone();
            proof {
                lemma_cell_views_push(v@, c);
            }
            v.push(c);
            assert(cell_views(v@) =~= cell_views(self.0@).take(i + 1));
        }
        assert(cell_views(self.0@).take(self.0.len() as int) =~= cell_views(self.0@));
        Charxels(v)
    }
}

impl Charxels {
    pub open spec fn view(&self) -> Seq<CharxelView> {
        cell_views(self.0@)
    }

    pub fn new() -> (r: Self)
        ensures
            r@.len() == 0,
    {
        Charxels(Vec::new())
    }

    /// The cells of a clean string, one per grapheme cluster, with default
    /// colors and no style.
    pub fn from_str(s: &str) -> (r: Self)
        requires
            is_clean(s@),
        ensures
            r@.len() == grapheme_clusters(s@).len(),
            forall|i: int| 0 <= i < r@.len() ==> #[trigger] r@[i] == (CharxelView {
                grapheme: grapheme_clusters(s@)[i],
                ..Charxel::blank_view()
            }),
    {
        let gs = graphemes(s);
        let mut v: Vec<Charxel> = Vec::new();
        for i in 0..gs.len()
            invariant
                views(gs@) == grapheme_clusters(s@),
                v.len() == i,
                forall|j: int| 0 <= j < i ==> #[trigger] cell_views(v@)[j] == (CharxelView {
                    grapheme: grapheme_clusters(s@)[j],
                    ..Charxel::blank_view()
                }),
        {
            assert(views(gs@)[i as int] == gs@[i as int]@);
            let c = Charxel::new(Grapheme::from_str(gs[i].as_str()));
            proof {
                lemma_cell_views_push(v@, c);
            }
            v.push(c);
        }
        Charxels(v)
    }

    /// The concatenated graphemes.
    pub fn to_string(&self) -> (r: String)
        ensures
            r@ == self@.map_values(|c: CharxelView| c.grapheme).flatten(),
    {
        let mut r = String::new();
        for i in 0..self.0.len()
            invariant
                r@ == self@.map_values(|c: CharxelView| c.grapheme).take(i as int).flatten(),
        {
            proof {
                let g = self@.map_values(|c: CharxelView| c.grapheme);
                g.take(i as int).lemma_flatten_push(g[i as int]);
                assert(g.take(i as int).push(g[i as int]) =~= g.take(i + 1));
            }
            r.append(self.0[i].grapheme.as_str());
        }
        assert(self@.map_values(|c: CharxelView| c.grapheme).take(self.0.len() as int) =~= self@.map_values(|c: CharxelView| c.grapheme));
        r
    }

    /// Total columns the cells take.
    pub fn display_width(&self) -> (w: u16)
        requires
            run_width(self@) <= u16::MAX,
        ensures
            w == run_width(self@),
    {
        let mut w: u16 = 0;
        for i in 0..self.0.len()
            invariant
                run_width(self@) <= u16::MAX,
                w == run_width(self@.take(i as int)),
        {
            proof {
                assert(self@.take(i + 1).drop_last() =~= self@.take(i as int));
                lemma_run_width_prefix(self@, i + 1);
            }
            w = w + self.0[i].display_width();
        }
        assert(self@.take(self.0.len() as int) =~= self@);
        w
    }

    pub fn is_empty(&self) -> (r: bool)
        ensures
            r == (self@.len() == 0),
    {
        self.0.len() == 0
    }

    pub fn push(&mut self, charxel: Charxel)
        ensures
            final(self)@ == old(self)@.push(charxel@),
    {
        self.0.push(charxel);
        assert(final(self)@ =~= old(self)@.push(charxel@));
    }

    pub fn append(&mut self, other: Charxels)
        ensures
            final(self)@ == old(self)@ + other@,
    {
        let ghost ov = other@;
        let mut other = other;
        self.0.append(&mut other.0);
        assert(cell_views(self.0@) =~= old(self)@ + ov);
    }

    /// Cut the run so that, with `end` appended, it fits in `len` columns;
    /// a run that already fits is left as it is.
    pub fn truncate(&mut self, len: u16, end: Charxels)
        requires
            run_width(end@) <= len,
            run_width(old(self)@) <= u16::MAX,
        ensures
            run_width(old(self)@) <= len ==> final(self)@ == old(self)@,
            run_width(old(self)@) > len ==> exists|k: int|
                0 <= k <= old(self)@.len() && final(self)@ == old(self)@.take(k) + end@
                    && run_width(old(self)@.take(k)) <= len - run_width(end@)
                    && (k < old(self)@.len() ==> run_width(old(self)@.take(k + 1)) > len - run_width(end@)),
            run_width(final(self)@) <= len,
    {
        let ew = end.display_width();
        let w = self.display_width();
        if w > len {
            let target = len - ew;
            let mut acc: u16 = 0;
            let mut count: usize = 0;
            let n = self.0.len();
            while count < n
                invariant
                    n == self.0.len(),
                    self@ == old(self)@,
                    run_width(self@) <= u16::MAX,
                    count <= n,
                    acc == run_width(self@.take(count as int)),
                    acc <= target,
                ensures
                    count <= n,
                    acc == run_width(self@.take(count as int)),
                    acc <= target,
                    count < n ==> run_width(self@.take(count + 1)) > target,
                decreases n - count,
            {
                proof {
                    assert(self@.take(count + 1).drop_last() =~= self@.take(count as int));
                    lemma_run_width_prefix(self@, count + 1);
                }
                let cw = self.0[count].display_width();
                if acc as u32 + cw as u32 > target as u32 {
                    break;
                }
                acc = acc + cw;
                count += 1;
            }
            self.0.truncate(count);
            assert(self@ =~= old(self)@.take(count as int));
            let ghost ev = end@;
            self.append(end);
            proof {
                lemma_run_width_concat(old(self)@.take(count as int), ev);
                let k = count as int;
                assert(0 <= k <= old(self)@.len() && final(self)@ == old(self)@.take(k) + ev
                    && run_width(old(self)@.take(k)) <= len - run_width(ev)
                    && (k < old(self)@.len() ==> run_width(old(self)@.take(k + 1)) > len - run_width(ev)));
            }
        }
    }

    /// Split into lines at cells whose grapheme is a single newline; the
    /// newline cells themselves are dropped.
    pub fn lines(&self) -> (r: Vec<Charxels>)
        ensures
            r@.map_values(|l: Charxels| l@) == split_lines(self@),
    {
        let mut out: Vec<Charxels> = Vec::new();
        let mut cur: Vec<Charxel> = Vec::new();
        assert(self@.take(0) =~= Seq::<CharxelView>::empty());
        assert(cell_views(cur@) =~= Seq::<CharxelView>::empty());
        assert(out@.map_values(|l: Charxels| l@) =~= Seq::<Seq<CharxelView>>::empty());
        assert(out@.map_values(|l: Charxels| l@).push(cell_views(cur@)) =~= seq![
            Seq::<CharxelView>::empty(),
        ]);
        for i in 0..self.0.len()
            invariant
                out@.map_values(|l: Charxels| l@).push(cell_views(cur@)) == split_lines(
                    self@.take(i as int),
                ),
        {
            let c = &self.0[i];
            let g = c.grapheme.as_str();
            let ghost prev = self@.take(i as int);
            assert(self@.take(i + 1).drop_last() =~= prev);
            assert(self@.take(i + 1).last() == c@);
            if g.unicode_len() == 1 && g.get_char(0) == '\n' {
                assert(c@.grapheme =~= seq!['\n']);
                let ghost before = out@.map_values(|l: Charxels| l@);
                let line = Charxels(cur);
                out.push(line);
                cur = Vec::new();
                assert(out@.map_values(|l: Charxels| l@) =~= before.push(line@));
                assert(cell_views(cur@) =~= Seq::<CharxelView>::empty());
            } else {
                assert(!is_newline(c@));
                let ghost cv = cell_views(cur@);
                let d = c.clone();
                proof {
                    lemma_cell_views_push(cur@, d);
                }
                cur.push(d);
                assert(out@.map_values(|l: Charxels| l@).push(cell_views(cur@)) =~= out@.map_values(
                    |l: Charxels| l@,
                ).push(cv).update(out@.len() as int, cv.push(c@)));
            }
        }
        assert(self@.take(self.0.len() as int) =~= self@);
        let ghost before = out@.map_values(|l: Charxels| l@);
        let last = Charxels(cur);
        out.push(last);
        assert(out@.map_values(|l: Charxels| l@) =~= before.push(last@));
        out
    }

    /// Group the cells by the word-bound segments of their text: one group
    /// per segment, holding as many cells as the segment has grapheme
    /// clusters.
    pub fn split_word_bounds(&self) -> (r: Vec<Charxels>)
        ensures
            r@.map_values(|l: Charxels| l@) == word_groups(self@, word_sizes(run_text(self@))),
    {
        let text = self.to_string();
        let segs = split_word_bounds(text.as_str());
        let n = self.0.len();
        let ghost sizes = word_sizes(run_text(self@));
        let mut out: Vec<Charxels> = Vec::new();
        let mut pos: usize = 0;
        assert(out@.map_values(|l: Charxels| l@) =~= Seq::<Seq<CharxelView>>::empty());
        assert(sizes.take(0) =~= Seq::<nat>::empty());
        for k in 0..segs.len()
            invariant
                n == self@.len(),
                views(segs@) == word_bound_segments(run_text(self@)),
                sizes == word_sizes(run_text(self@)),
                sizes.len() == segs@.len(),
                pos == consumed(n as nat, sizes.take(k as int)),
                out@.map_values(|l: Charxels| l@) == word_groups(self@, sizes.take(k as int)),
        {
            let size = graphemes(segs[k].as_str()).len();
            assert(views(segs@)[k as int] == segs@[k as int]@);
            assert(size == sizes[k as int]);
            proof {
                lemma_consumed_bound(n as nat, sizes.take(k as int));
                assert(sizes.take(k + 1).drop_last() =~= sizes.take(k as int));
            }
            let end = if size <= n - pos {
                pos + size
            } else {
                n
            };
            let mut group: Vec<Charxel> = Vec::new();
            let mut j = pos;
            while j < end
                invariant
                    pos <= j <= end <= n,
                    n == self@.len(),
                    cell_views(group@) == self@.subrange(pos as int, j as int),
                decreases end - j,
            {
                let c = self.0[j].clone();
                proof {
                    lemma_cell_views_push(group@, c);
                }
                group.push(c);
                j += 1;
                assert(cell_views(group@) =~= self@.subrange(pos as int, j as int));
            }
            let ghost before = out@.map_values(|l: Charxels| l@);
            let g = Charxels(group);
            out.push(g);
            assert(out@.map_values(|l: Charxels| l@) =~= before.push(g@));
            pos = end;
        }
        assert(sizes.take(segs@.len() as int) =~= sizes);
        out
    }

    /// Give every cell the colors `color`.
    pub fn with_color(self, color: &ColorTuple) -> (r: Charxels)
        ensures
            r@.len() == self@.len(),
            forall|i: int| 0 <= i < r@.len() ==> #[trigger] r@[i] == (CharxelView {
                background: color.bg,
                foreground: color.fg,
                ..self@[i]
            }),
    {
        let ghost orig = self@;
        let mut v = self.0;
        let n = v.len();
        for i in 0..n
            invariant
                n == v.len(),
                orig == self@,
                orig == cell_views(self.0@),
                forall|j: int| 0 <= j < i ==> #[trigger] cell_views(v@)[j] == (CharxelView {
                    background: color.bg,
                    foreground: color.fg,
                    ..self@[j]
                }),
                forall|j: int| i <= j < n ==> #[trigger] cell_views(v@)[j] == self@[j],
        {
            assert(cell_views(v@)[i as int] == self@[i as int]);
            let mut c = v[i].clone();
            c.set_background(color.bg);
            c.set_foreground(color.fg);
            proof {
                lemma_cell_views_update(v@, i as int, c);
            }
            let ghost cv = c@;
            v.set(i, c);
            assert(cell_views(v@)[i as int] == cv);
        }
        Charxels(v)
    }

    /// Give every cell the background `background`.
    pub fn with_background(self, background: BgColor) -> (r: Charxels)
        ensures
            r@.len() == self@.len(),
            forall|i: int| 0 <= i < r@.len() ==> #[trigger] r@[i] == (CharxelView {
                background,
                ..self@[i]
            }),
    {
        let ghost orig = self@;
        let mut v = self.0;
        let n = v.len();
        for i in 0..n
            invariant
                n == v.len(),
                orig == self@,
                orig == cell_views(self.0@),
                forall|j: int| 0 <= j < i ==> #[trigger] cell_views(v@)[j] == (CharxelView {
                    background,
                    ..self@[j]
                }),
                forall|j: int| i <= j < n ==> #[trigger] cell_views(v@)[j] == self@[j],
        {
            assert(cell_views(v@)[i as int] == self@[i as int]);
            let mut c = v[i].clone();
            c.set_background(background);
            proof {
                lemma_cell_views_update(v@, i as int, c);
            }
            let ghost cv = c@;
            v.set(i, c);
            assert(cell_views(v@)[i as int] == cv);
        }
        Charxels(v)
    }

    /// Give every cell the foreground `foreground`.
    pub fn with_foreground(self, foreground: FgColor) -> (r: Charxels)
        ensures
            r@.len() == self@.len(),
            forall|i: int| 0 <= i < r@.len() ==> #[trigger] r@[i] == (CharxelView {
                foreground,
                ..self@[i]
            }),
    {
        let ghost orig = self@;
        let mut v = self.0;
        let n = v.len();
        for i in 0..n
            invariant
                n == v.len(),
                orig == self@,
                orig == cell_views(self.0@),
                forall|j: int| 0 <= j < i ==> #[trigger] cell_views(v@)[j] == (CharxelView {
                    foreground,
                    ..self@[j]
                }),
                forall|j: int| i <= j < n ==> #[trigger] cell_views(v@)[j] == self@[j],
        {
            assert(cell_views(v@)[i as int] == self@[i as int]);
            let mut c = v[i].clone();
            c.set_foreground(foreground);
            proof {
                lemma_cell_views_update(v@, i as int, c);
            }
            let ghost cv = c@;
            v.set(i, c);
            assert(cell_views(v@)[i as int] == cv);
        }
        Charxels(v)
    }

    /// Add `style` to every cell.
    pub fn with_style(self, style: Style) -> (r: Charxels)
        ensures
            r@.len() == self@.len(),
            forall|i: int| 0 <= i < r@.len() ==> style_added(self@[i], #[trigger] r@[i], style),
    {
        let ghost orig = self@;
        let mut v = self.0;
        let n = v.len();
        for i in 0..n
            invariant
                n == v.len(),
                orig == self@,
                orig == cell_views(self.0@),
                forall|j: int| 0 <= j < i ==> style_added(self@[j], #[trigger] cell_views(v@)[j], style),
                forall|j: int| i <= j < n ==> #[trigger] cell_views(v@)[j] == self@[j],
        {
            assert(cell_views(v@)[i as int] == self@[i as int]);
            let mut c = v[i].clone();
            c.add_style(style);
            proof {
                lemma_cell_views_update(v@, i as int, c);
            }
            let ghost cv = c@;
            v.set(i, c);
            assert(cell_views(v@)[i as int] == cv);
        }
        Charxels(v)
    }

    /// Give every cell exactly the styles `styles`.
    pub fn with_styles(self, styles: &[Style]) -> (r: Charxels)
        ensures
            r@.len() == self@.len(),
            forall|i: int| 0 <= i < r@.len() ==> styles_set(self@[i], #[trigger] r@[i], styles@),
    {
        let ghost orig = self@;
        let mut v = self.0;
        let n = v.len();
        for i in 0..n
            invariant
                n == v.len(),
                orig == self@,
                orig == cell_views(self.0@),
                forall|j: int| 0 <= j < i ==> styles_set(self@[j], #[trigger] cell_views(v@)[j], styles@),
                forall|j: int| i <= j < n ==> #[trigger] cell_views(v@)[j] == self@[j],
        {
            assert(cell_views(v@)[i as int] == self@[i as int]);
            let mut c = v[i].clone();
            c.set_styles(styles);
            proof {
                lemma_cell_views_update(v@, i as int, c);
            }
            let ghost cv = c@;
            v.set(i, c);
            assert(cell_views(v@)[i as int] == cv);
        }
        Charxels(v)
    }
}


/// The cells of a clean text: one blank cell per grapheme cluster.
pub open spec fn text_cells(s: Seq<char>) -> Seq<CharxelView> {
    grapheme_clusters(s).map_values(|g: Seq<char>| CharxelView { grapheme: g, ..Charxel::blank_view() })
}

/// Values that show themselves as cells, in colors taken from a
/// configuration of type `C`.
pub trait CharxelDisplay<C> {
    fn colored_fmt(&self, config: &C) -> Charxels;
}

/// Values shown as a run of cells.
pub trait IntoCharxels: Sized {
    /// The cells the value becomes.
    spec fn cells(&self) -> Seq<CharxelView>;

    /// Whether the value can become cells: text must hold no control
    /// character.
    spec fn convertible(&self) -> bool;

    fn into_charxels(self) -> (r: Charxels)
        requires
            self.convertible(),
        ensures
            r@ == self.cells(),
    ;

    /// The cells, all in the colors `color`.
    fn with_color(self, color: &ColorTuple) -> (r: Charxels)
        requires
            self.convertible(),
        ensures
            r@.len() == self.cells().len(),
            forall|i: int| 0 <= i < r@.len() ==> #[trigger] r@[i] == (CharxelView {
                background: color.bg,
                foreground: color.fg,
                ..self.cells()[i]
            }),
    {
        self.into_charxels().with_color(color)
    }

    /// The cells, all on the background `background`.
    fn with_background(self, background: BgColor) -> (r: Charxels)
        requires
            self.convertible(),
        ensures
            r@.len() == self.cells().len(),
            forall|i: int| 0 <= i < r@.len() ==> #[trigger] r@[i] == (CharxelView { background, ..self.cells()[i] }),
    {
        self.into_charxels().with_background(background)
    }

    /// The cells, all in the foreground `foreground`.
    fn with_foreground(self, foreground: FgColor) -> (r: Charxels)
        requires
            self.convertible(),
        ensures
            r@.len() == self.cells().len(),
            forall|i: int| 0 <= i < r@.len() ==> #[trigger] r@[i] == (CharxelView { foreground, ..self.cells()[i] }),
    {
        self.into_charxels().with_foreground(foreground)
    }

    /// The cells, each with exactly the styles `styles`.
    fn with_styles(self, styles: &[Style]) -> (r: Charxels)
        requires
            self.convertible(),
        ensures
            r@.len() == self.cells().len(),
            forall|i: int| 0 <= i < r@.len() ==> styles_set(self.cells()[i], #[trigger] r@[i], styles@),
    {
        self.into_charxels().with_styles(styles)
    }

    /// The cells, each with `style` added.
    fn with_style(self, style: Style) -> (r: Charxels)
        requires
            self.convertible(),
        ensures
            r@.len() == self.cells().len(),
            forall|i: int| 0 <= i < r@.len() ==> style_added(self.cells()[i], #[trigger] r@[i], style),
    {
        self.into_charxels().with_style(style)
    }
}

impl IntoCharxels for String {
    open spec fn cells(&self) -> Seq<CharxelView> {
        text_cells(self@)
    }

    open spec fn convertible(&self) -> bool {
        is_clean(self@)
    }

    fn into_charxels(self) -> (r: Charxels) {
        let r = Charxels::from_str(self.as_str());
        assert(r@ =~= text_cells(self@));
        r
    }
}

impl<'a> IntoCharxels for &'a str {
    open spec fn cells(&self) -> Seq<CharxelView> {
        text_cells(self@)
    }

    open spec fn convertible(&self) -> bool {
        is_clean(self@)
    }

    fn into_charxels(self) -> (r: Charxels) {
        let r = Charxels::from_str(self);
        assert(r@ =~= text_cells(self@));
        r
    }
}

impl IntoCharxels for Charxels {
    open spec fn cells(&self) -> Seq<CharxelView> {
        self@
    }

    open spec fn convertible(&self) -> bool {
        true
    }

    fn into_charxels(self) -> (r: Charxels) {
        self
    }
}

} // verus!
