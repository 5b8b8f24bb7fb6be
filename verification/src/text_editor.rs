//! Reusable text-editing state: a string buffer with a grapheme cursor and a
//! scrolling view, edited by insert / delete / cursor moves and vim motions.

use vstd::prelude::*;
use crate::motion::{is_inclusive_spec, Action, Motion, Operator};
use crate::registers::{MotionType, RegisterValue};
use crate::text::{next_word, next_word_spec};
use crate::unicode::{
    chars_of, concat_range, copy_str, grapheme_clusters, graphemes, is_segmentation, push_char,
    string_from_chars, views,
};
use crate::vim::{
    bigword_backward_spec, bigword_end_spec, bigword_forward_spec, first_non_blank,
    first_non_blank_spec, is_blank, is_word_char, lemma_skip_back_bounds,
    lemma_skip_back_prev_bounds, lemma_skip_fwd_bounds, skip_back, skip_fwd, vim_bigword_backward,
    vim_bigword_end, vim_bigword_forward, vim_word_backward, vim_word_end, vim_word_forward,
    word_backward_spec, word_cls, word_end_spec, word_forward_spec, Cls,
};

verus! {

/// A position counted in grapheme clusters.
#[derive(Debug, Clone, Copy)]
pub struct Cursor {
    pub index: usize,
}

impl Cursor {
    pub fn new(index: usize) -> (r: Self)
        ensures
            r.index == index,
    {
        Cursor { index }
    }

    pub fn get(&self) -> (r: usize)
        ensures
            r == self.index,
    {
        self.index
    }

    pub fn set(&mut self, index: usize)
        ensures
            final(self).index == index,
    {
        self.index = index;
    }
}

/// The grapheme clusters of a buffer.
pub open spec fn clusters(buf: Seq<char>) -> Seq<Seq<char>> {
    grapheme_clusters(buf)
}

pub open spec fn clamp(k: int, n: int) -> int {
    if k < n {
        k
    } else {
        n
    }
}

/// The characters of the clusters before grapheme position `k` (all of them
/// when `k` is past the end).
pub open spec fn before(buf: Seq<char>, k: int) -> Seq<char> {
    let cs = clusters(buf);
    cs.subrange(0, clamp(k, cs.len() as int)).flatten()
}

/// The characters of the clusters from grapheme position `k` on.
pub open spec fn after(buf: Seq<char>, k: int) -> Seq<char> {
    let cs = clusters(buf);
    cs.subrange(clamp(k, cs.len() as int), cs.len() as int).flatten()
}

/// The characters of the clusters in grapheme range `lo..hi` (clamped).
pub open spec fn between(buf: Seq<char>, lo: int, hi: int) -> Seq<char> {
    let cs = clusters(buf);
    if lo >= hi {
        Seq::empty()
    } else {
        cs.subrange(clamp(lo, cs.len() as int), clamp(hi, cs.len() as int)).flatten()
    }
}

/// The first character of every cluster.
pub open spec fn first_chars(buf: Seq<char>) -> Seq<char> {
    clusters(buf).map_values(|g: Seq<char>| g[0])
}

pub open spec fn sat_sub(a: int, b: int) -> int {
    if a >= b {
        a - b
    } else {
        0
    }
}

/// One raw step of a motion from grapheme position `pos`, before the
/// Normal-mode cap.
pub open spec fn motion_once(fc: Seq<char>, m: Motion, pos: int) -> int {
    let len = fc.len() as int;
    match m {
        Motion::Left => sat_sub(pos, 1),
        Motion::Right => clamp(pos + 1, len),
        Motion::LineStart => 0,
        Motion::LineEnd => sat_sub(len, 1),
        Motion::FirstNonBlank => first_non_blank_spec(fc),
        Motion::WordForward => word_forward_spec(fc, pos),
        Motion::WordBackward => word_backward_spec(fc, pos),
        Motion::WordEnd => word_end_spec(fc, pos),
        Motion::BigWordForward => bigword_forward_spec(fc, pos),
        Motion::BigWordBackward => bigword_backward_spec(fc, pos),
        Motion::BigWordEnd => bigword_end_spec(fc, pos),
        _ => pos,
    }
}

/// A step that neither overflows nor indexes out of the buffer.
pub open spec fn motion_once_ok(fc: Seq<char>, m: Motion, pos: int) -> bool {
    match m {
        Motion::Right => pos < usize::MAX,
        Motion::WordEnd | Motion::BigWordEnd => fc.len() > 0 ==> pos < usize::MAX,
        Motion::WordBackward | Motion::BigWordBackward => pos <= fc.len(),
        _ => true,
    }
}

/// `n` raw steps of a motion.
pub open spec fn motion_iter(fc: Seq<char>, m: Motion, pos: int, n: nat) -> int
    decreases n,
{
    if n == 0 {
        pos
    } else {
        motion_once(fc, m, motion_iter(fc, m, pos, (n - 1) as nat))
    }
}

/// Every one of the `n` steps is safe.
pub open spec fn motion_iter_ok(fc: Seq<char>, m: Motion, pos: int, n: nat) -> bool
    decreases n,
{
    n > 0 ==> motion_iter_ok(fc, m, pos, (n - 1) as nat) && motion_once_ok(
        fc,
        m,
        motion_iter(fc, m, pos, (n - 1) as nat),
    )
}

/// Normal-mode target: `n` steps capped at the last grapheme.
pub open spec fn motion_target_spec(fc: Seq<char>, m: Motion, pos: int, n: nat) -> int {
    if fc.len() == 0 {
        0
    } else {
        clamp(motion_iter(fc, m, pos, n), fc.len() - 1)
    }
}

/// The grapheme range an operator with motion `m` repeated `n` times covers
/// from `pos`, with `lo <= hi`.
pub open spec fn grapheme_range_spec(fc: Seq<char>, m: Motion, pos: int, n: nat) -> (int, int) {
    let len = fc.len() as int;
    match m {
        Motion::WholeLine => (0, len),
        Motion::Left => (sat_sub(pos, n as int), pos),
        Motion::Right => (pos, clamp(pos + n, len)),
        _ => {
            let t = clamp(motion_iter(fc, m, pos, n), len);
            let (lo, hi) = if t >= pos {
                (pos, t)
            } else {
                (t, pos)
            };
            if is_inclusive_spec(m) {
                (lo, clamp(hi + 1, len))
            } else {
                (lo, hi)
            }
        },
    }
}

/// An operator range starts no later than it ends, for a cursor within the
/// buffer.
pub proof fn lemma_range_ordered(fc: Seq<char>, m: Motion, pos: int, n: nat)
    requires
        0 <= pos <= fc.len(),
    ensures
        grapheme_range_spec(fc, m, pos, n).0 <= grapheme_range_spec(fc, m, pos, n).1,
{
}

/// A Normal-mode motion never leaves the cursor past the last grapheme.
pub proof fn lemma_target_capped(fc: Seq<char>, m: Motion, pos: int, n: nat)
    ensures
        fc.len() > 0 ==> motion_target_spec(fc, m, pos, n) <= fc.len() - 1,
        fc.len() == 0 ==> motion_target_spec(fc, m, pos, n) == 0,
{
}

/// Computing the range stays within machine integers and the buffer.
pub open spec fn grapheme_range_ok(fc: Seq<char>, m: Motion, pos: int, n: nat) -> bool {
    match m {
        Motion::WholeLine | Motion::Left => true,
        Motion::Right => pos + n <= usize::MAX,
        _ => {
            let t = clamp(motion_iter(fc, m, pos, n), fc.len() as int);
            &&& motion_iter_ok(fc, m, pos, n)
            &&& is_inclusive_spec(m) ==> (if t >= pos {
                t
            } else {
                pos
            }) < usize::MAX
        },
    }
}

pub proof fn lemma_motion_once_bound(fc: Seq<char>, m: Motion, pos: int)
    requires
        0 <= pos,
        motion_once_ok(fc, m, pos),
    ensures
        0 <= motion_once(fc, m, pos),
        motion_once(fc, m, pos) <= if pos <= fc.len() { fc.len() as int } else { pos },
{
    let len = fc.len() as int;
    match m {
        Motion::FirstNonBlank => {
            lemma_skip_fwd_bounds(fc, 0, Cls::Space);
        },
        Motion::WordForward => {
            if pos < len {
                let c = fc[pos];
                lemma_skip_fwd_bounds(fc, pos, Cls::Word);
                lemma_skip_fwd_bounds(fc, pos, Cls::Punct);
                let i = if is_word_char(c) {
                    skip_fwd(fc, pos, Cls::Word)
                } else if !is_blank(c) {
                    skip_fwd(fc, pos, Cls::Punct)
                } else {
                    pos
                };
                lemma_skip_fwd_bounds(fc, i, Cls::Space);
            }
        },
        Motion::WordBackward | Motion::BigWordBackward => {
            if pos > 0 {
                lemma_skip_back_bounds(fc, pos - 1, Cls::Space);
                let i = skip_back(fc, pos - 1, Cls::Space);
                lemma_skip_back_prev_bounds(fc, i, word_cls(fc[i]));
                lemma_skip_back_prev_bounds(fc, i, Cls::NonSpace);
            }
        },
        Motion::WordEnd | Motion::BigWordEnd => {
            if len > 0 && pos + 1 < len {
                lemma_skip_fwd_bounds(fc, pos + 1, Cls::Space);
                let i = skip_fwd(fc, pos + 1, Cls::Space);
                if i < len {
                    lemma_skip_fwd_bounds(fc, i + 1, word_cls(fc[i]));
                    lemma_skip_fwd_bounds(fc, i + 1, Cls::NonSpace);
                }
            }
        },
        Motion::BigWordForward => {
            lemma_skip_fwd_bounds(fc, pos, Cls::NonSpace);
            lemma_skip_fwd_bounds(fc, skip_fwd(fc, pos, Cls::NonSpace), Cls::Space);
        },
        _ => {},
    }
}

pub proof fn lemma_motion_iter_bound(fc: Seq<char>, m: Motion, pos: int, n: nat)
    requires
        0 <= pos,
        motion_iter_ok(fc, m, pos, n),
    ensures
        0 <= motion_iter(fc, m, pos, n),
        motion_iter(fc, m, pos, n) <= if pos <= fc.len() { fc.len() as int } else { pos },
    decreases n,
{
    if n > 0 {
        lemma_motion_iter_bound(fc, m, pos, (n - 1) as nat);
        lemma_motion_once_bound(fc, m, motion_iter(fc, m, pos, (n - 1) as nat));
    }
}

pub proof fn lemma_motion_iter_ok_prefix(fc: Seq<char>, m: Motion, pos: int, n: nat, i: nat)
    requires
        motion_iter_ok(fc, m, pos, n),
        i <= n,
    ensures
        motion_iter_ok(fc, m, pos, i),
    decreases n,
{
    if i < n {
        lemma_motion_iter_ok_prefix(fc, m, pos, (n - 1) as nat, i);
    }
}

/// Clusters that segment a buffer split it at any position.
pub proof fn lemma_split(cs: Seq<Seq<char>>, k: int)
    requires
        0 <= k <= cs.len(),
    ensures
        cs.subrange(0, k).flatten() + cs.subrange(k, cs.len() as int).flatten() == cs.flatten(),
{
    vstd::seq_lib::lemma_flatten_concat(cs.subrange(0, k), cs.subrange(k, cs.len() as int));
    assert(cs.subrange(0, k) + cs.subrange(k, cs.len() as int) =~= cs);
}

pub proof fn lemma_split3(cs: Seq<Seq<char>>, a: int, b: int)
    requires
        0 <= a <= b <= cs.len(),
    ensures
        cs.subrange(0, a).flatten() + cs.subrange(a, b).flatten() + cs.subrange(
            b,
            cs.len() as int,
        ).flatten() == cs.flatten(),
{
    vstd::seq_lib::lemma_flatten_concat(cs.subrange(0, a), cs.subrange(a, b));
    vstd::seq_lib::lemma_flatten_concat(cs.subrange(0, a) + cs.subrange(a, b), cs.subrange(b, cs.len() as int));
    assert(cs.subrange(0, a) + cs.subrange(a, b) + cs.subrange(b, cs.len() as int) =~= cs);
}

/// What a delete over grapheme range `lo..hi` keeps, with what it returns
/// put back between, is the whole buffer: the text before `lo`, the text
/// of `lo..hi`, and the text from `hi` on make up its grapheme clusters.
pub proof fn lemma_delete_keeps_the_rest(buf: Seq<char>, lo: int, hi: int)
    requires
        0 <= lo < hi,
    ensures
        before(buf, lo) + between(buf, lo, hi) + after(buf, hi) == clusters(buf).flatten(),
{
    let cs = clusters(buf);
    let n = cs.len() as int;
    lemma_split3(cs, clamp(lo, n), clamp(hi, n));
}

/// A segmentation of the empty sequence has no pieces, and only the empty
/// sequence has an empty segmentation.
pub proof fn lemma_segmentation_empty(cs: Seq<Seq<char>>, s: Seq<char>)
    requires
        is_segmentation(cs, s),
    ensures
        (cs.len() == 0) == (s.len() == 0),
{
    if cs.len() > 0 {
        assert(cs[0].len() > 0);
        assert(cs.flatten() == cs[0] + cs.drop_first().flatten());
    }
}

/// The clusters of `buf`, computed by the segmentation crate.
fn clusters_of(buf: &String) -> (gs: Vec<String>)
    ensures
        views(gs@) == clusters(buf@),
        is_segmentation(views(gs@), buf@),
{
    graphemes(buf.as_str())
}

fn first_chars_of(gs: &Vec<String>) -> (fc: Vec<char>)
    requires
        forall|i: int| 0 <= i < gs.len() ==> (#[trigger] views(gs@)[i]).len() > 0,
    ensures
        fc@ == views(gs@).map_values(|g: Seq<char>| g[0]),
{
    let mut fc: Vec<char> = Vec::new();
    for i in 0..gs.len()
        invariant
            forall|j: int| 0 <= j < gs.len() ==> (#[trigger] views(gs@)[j]).len() > 0,
            fc@ == views(gs@).map_values(|g: Seq<char>| g[0]).take(i as int),
    {
        assert(views(gs@)[i as int] == gs@[i as int]@);
        fc.push(gs[i].as_str().get_char(0));
        assert(fc@ =~= views(gs@).map_values(|g: Seq<char>| g[0]).take(i + 1));
    }
    assert(views(gs@).map_values(|g: Seq<char>| g[0]).take(gs.len() as int) =~= views(
        gs@,
    ).map_values(|g: Seq<char>| g[0]));
    fc
}

/// `s` without the character at position `q`.
fn remove_char_at(s: &String, q: usize) -> (r: String)
    requires
        q < s@.len(),
    ensures
        r@ == s@.remove(q as int),
{
    let mut cs = chars_of(s.as_str());
    cs.remove(q);
    string_from_chars(&cs)
}

/// The characters of `s` in reverse order.
fn reversed_chars(s: &String) -> (r: Vec<char>)
    ensures
        r@ == s@.reverse(),
{
    let cs = chars_of(s.as_str());
    let mut r: Vec<char> = Vec::new();
    let n = cs.len();
    for i in 0..n
        invariant
            n == cs.len(),
            cs@ == s@,
            r@ == s@.reverse().take(i as int),
    {
        r.push(cs[n - 1 - i]);
        assert(r@ =~= s@.reverse().take(i + 1));
    }
    assert(s@.reverse().take(n as int) =~= s@.reverse());
    r
}

/// The view position that keeps `cursor` visible in `width` columns when
/// the cursor sits at the end.
pub open spec fn end_view(cursor: int, width: int) -> int {
    if width > 0 && cursor > width - 1 {
        cursor - (width - 1)
    } else {
        0
    }
}

/// Reusable text-editing state: a string buffer with a cursor and a
/// scrolling view, both counted in grapheme clusters.
#[derive(Debug)]
pub struct TextEditor {
    pub buf: String,
    pub cursor: Cursor,
    pub view: Cursor,
    /// Display width the editor was last laid out with.
    pub width: usize,
}

impl Clone for TextEditor {
    fn clone(&self) -> (r: Self)
        ensures
            r == *self,
    {
        TextEditor { buf: self.buf.clone(), cursor: self.cursor, view: self.view, width: self.width }
    }
}

impl TextEditor {
    /// Grapheme position of the cursor.
    pub open spec fn pos(&self) -> int {
        self.cursor.index as int
    }

    /// Number of grapheme clusters in the buffer.
    pub open spec fn len(&self) -> int {
        clusters(self.buf@).len() as int
    }

    pub fn new() -> (r: Self)
        ensures
            r.buf@ == Seq::<char>::empty(),
            r.cursor.index == 0,
            r.view.index == 0,
            r.width == 0,
    {
        TextEditor { buf: String::new(), cursor: Cursor::new(0), view: Cursor::new(0), width: 0 }
    }

    /// An editor holding `text`, with the cursor at its end.
    pub fn with_text(text: &str) -> (r: Self)
        ensures
            r.buf@ == text@,
            r.cursor.index == clusters(text@).len(),
            r.view.index == 0,
            r.width == 0,
    {
        let mut editor = TextEditor {
            buf: copy_str(text),
            cursor: Cursor::new(0),
            view: Cursor::new(0),
            width: 0,
        };
        editor.end();
        editor
    }

    pub fn set_width(&mut self, width: usize)
        ensures
            final(self).width == width,
            final(self).buf == old(self).buf,
            final(self).cursor == old(self).cursor,
            final(self).view == old(self).view,
    {
        self.width = width;
    }

    pub fn width(&self) -> (r: usize)
        ensures
            r == self.width,
    {
        self.width
    }

    /// Insert `c` at the cursor and move the cursor after it.
    pub fn key(&mut self, c: char)
        requires
            old(self).cursor.index < usize::MAX,
        ensures
            final(self).buf@ == before(old(self).buf@, old(self).pos()) + seq![c] + after(
                old(self).buf@,
                old(self).pos(),
            ),
            final(self).cursor.index == old(self).cursor.index + 1,
            final(self).view == old(self).view,
            final(self).width == old(self).width,
    {
        let gs = clusters_of(&self.buf);
        let k = if self.cursor.index < gs.len() {
            self.cursor.index
        } else {
            gs.len()
        };
        let mut nb = concat_range(&gs, 0, k);
        push_char(&mut nb, c);
        let rest = concat_range(&gs, k, gs.len());
        nb.append(rest.as_str());
        self.buf = nb;
        self.cursor.index = self.cursor.index + 1;
    }

    /// Character position the backspace at grapheme cursor `pos` removes.
    pub open spec fn backspace_target(buf: Seq<char>, pos: int) -> int {
        if pos - 1 < clusters(buf).len() {
            before(buf, pos - 1).len() as int
        } else {
            buf.len() - 1
        }
    }

    /// Remove the character before the cursor (the first character of the
    /// previous grapheme cluster) and move the cursor back.
    pub fn backspace(&mut self)
        requires
            old(self).cursor.index > 0 && old(self).pos() - 1 >= old(self).len() ==> (
            old(self).buf@.len() > 0 && (old(self).buf@.last() as u32) < 0x80),
        ensures
            old(self).cursor.index == 0 ==> final(self).buf == old(self).buf && final(self).cursor
                == old(self).cursor,
            old(self).cursor.index > 0 ==> final(self).buf@ == old(self).buf@.remove(
                Self::backspace_target(old(self).buf@, old(self).pos()),
            ) && final(self).cursor.index == old(self).cursor.index - 1,
            final(self).view == old(self).view,
            final(self).width == old(self).width,
    {
        if self.cursor.index > 0 {
            self.cursor.index -= 1;
            let p = self.cursor.index;
            let gs = clusters_of(&self.buf);
            proof {
                lemma_segmentation_empty(views(gs@), self.buf@);
            }
            let q = if p < gs.len() {
                let pre = concat_range(&gs, 0, p);
                proof {
                    lemma_split(views(gs@), p as int);
                    lemma_split(views(gs@), p + 1);
                    assert(views(gs@).subrange(p as int, gs.len() as int).flatten() == views(
                        gs@,
                    )[p as int] + views(gs@).subrange(p + 1, gs.len() as int).flatten()) by {
                        assert(views(gs@).subrange(p as int, gs.len() as int).drop_first() =~= views(
                            gs@,
                        ).subrange(p + 1, gs.len() as int));
                    }
                }
                pre.as_str().unicode_len()
            } else {
                self.buf.as_str().unicode_len() - 1
            };
            self.buf = remove_char_at(&self.buf, q);
        }
    }

    /// Number of characters a word step backwards from grapheme `pos` covers.
    pub open spec fn word_back_count(buf: Seq<char>, pos: int) -> int {
        next_word_spec(before(buf, pos).reverse()) as int
    }

    /// Delete the word before the cursor.
    pub fn backward_delete_word(&mut self)
        ensures
            ({
                let ws = sat_sub(old(self).pos(), Self::word_back_count(old(self).buf@, old(self).pos()));
                &&& final(self).buf@ == before(old(self).buf@, ws) + after(old(self).buf@, old(self).pos())
                &&& final(self).cursor.index == ws
            }),
            final(self).view == old(self).view,
            final(self).width == old(self).width,
    {
        let gs = clusters_of(&self.buf);
        let len = gs.len();
        let k = if self.cursor.index < len {
            self.cursor.index
        } else {
            len
        };
        let pre = concat_range(&gs, 0, k);
        let rev = reversed_chars(&pre);
        let n = next_word(&rev);
        let ws = if self.cursor.index >= n {
            self.cursor.index - n
        } else {
            0
        };
        let ks = if ws < len {
            ws
        } else {
            len
        };
        let mut nb = concat_range(&gs, 0, ks);
        let rest = concat_range(&gs, k, len);
        nb.append(rest.as_str());
        self.buf = nb;
        self.cursor.index = ws;
    }

    pub fn delete_from_cursor_to_start(&mut self)
        ensures
            final(self).buf@ == after(old(self).buf@, old(self).pos()),
            final(self).cursor.index == 0,
            final(self).view.index == 0,
            final(self).width == old(self).width,
    {
        let gs = clusters_of(&self.buf);
        let k = if self.cursor.index < gs.len() {
            self.cursor.index
        } else {
            gs.len()
        };
        self.buf = concat_range(&gs, k, gs.len());
        self.cursor.index = 0;
        self.view.index = 0;
    }

    pub fn delete_from_cursor_to_end(&mut self)
        ensures
            final(self).buf@ == before(old(self).buf@, old(self).pos()),
            final(self).cursor == old(self).cursor,
            final(self).view == old(self).view,
            final(self).width == old(self).width,
    {
        let gs = clusters_of(&self.buf);
        let k = if self.cursor.index < gs.len() {
            self.cursor.index
        } else {
            gs.len()
        };
        self.buf = concat_range(&gs, 0, k);
    }

    /// Remove the character under the cursor (the first character of the
    /// cursor's grapheme cluster).
    pub fn delete(&mut self)
        ensures
            old(self).pos() < old(self).len() ==> final(self).buf@ == old(self).buf@.remove(
                before(old(self).buf@, old(self).pos()).len() as int,
            ),
            old(self).pos() >= old(self).len() ==> final(self).buf == old(self).buf,
            final(self).cursor == old(self).cursor,
            final(self).view == old(self).view,
            final(self).width == old(self).width,
    {
        let gs = clusters_of(&self.buf);
        let p = self.cursor.index;
        if p < gs.len() {
            let pre = concat_range(&gs, 0, p);
            proof {
                lemma_split(views(gs@), p as int);
                assert(views(gs@).subrange(p as int, gs.len() as int).flatten() == views(gs@)[p as int]
                    + views(gs@).subrange(p + 1, gs.len() as int).flatten()) by {
                    assert(views(gs@).subrange(p as int, gs.len() as int).drop_first() =~= views(
                        gs@,
                    ).subrange(p + 1, gs.len() as int));
                }
            }
            let q = pre.as_str().unicode_len();
            self.buf = remove_char_at(&self.buf, q);
        }
    }

    pub fn home(&mut self)
        ensures
            final(self).buf == old(self).buf,
            final(self).cursor.index == 0,
            final(self).view.index == 0,
            final(self).width == old(self).width,
    {
        self.cursor.index = 0;
        self.view.index = 0;
    }

    /// Move the cursor past the last grapheme, scrolling so it stays visible.
    pub fn end(&mut self)
        ensures
            final(self).buf == old(self).buf,
            final(self).cursor.index == old(self).len(),
            final(self).view.index == end_view(old(self).len(), old(self).width as int),
            final(self).width == old(self).width,
    {
        let gs = clusters_of(&self.buf);
        self.cursor.index = gs.len();
        let width = self.width;
        if width > 0 && self.cursor.index > width - 1 {
            self.view.index = self.cursor.index - (width - 1);
        } else {
            self.view.index = 0;
        }
    }

    pub fn clear(&mut self)
        ensures
            final(self).buf@ == Seq::<char>::empty(),
            final(self).cursor.index == 0,
            final(self).view.index == 0,
            final(self).width == old(self).width,
    {
        self.buf = String::new();
        self.cursor.index = 0;
        self.view.index = 0;
    }

    pub fn left(&mut self)
        ensures
            final(self).buf == old(self).buf,
            final(self).cursor.index == sat_sub(old(self).pos(), 1),
            final(self).view == old(self).view,
            final(self).width == old(self).width,
    {
        if self.cursor.index > 0 {
            self.cursor.index -= 1;
        }
    }

    pub fn right(&mut self)
        ensures
            final(self).buf == old(self).buf,
            final(self).cursor.index == if old(self).pos() < old(self).len() {
                old(self).pos() + 1
            } else {
                old(self).pos()
            },
            final(self).view == old(self).view,
            final(self).width == old(self).width,
    {
        let gs = clusters_of(&self.buf);
        if self.cursor.index < gs.len() {
            self.cursor.index += 1;
        }
    }

    /// Move the cursor back by one word step.
    pub fn word_left(&mut self)
        ensures
            final(self).buf == old(self).buf,
            final(self).cursor.index == sat_sub(
                old(self).pos(),
                Self::word_back_count(old(self).buf@, old(self).pos()),
            ),
            final(self).view == old(self).view,
            final(self).width == old(self).width,
    {
        let gs = clusters_of(&self.buf);
        let k = if self.cursor.index < gs.len() {
            self.cursor.index
        } else {
            gs.len()
        };
        let pre = concat_range(&gs, 0, k);
        let rev = reversed_chars(&pre);
        let n = next_word(&rev);
        if self.cursor.index >= n {
            self.cursor.index -= n;
        } else {
            self.cursor.index = 0;
        }
    }

    /// Number of characters a word step forward from grapheme `pos` covers.
    pub open spec fn word_fwd_count(buf: Seq<char>, pos: int) -> int {
        next_word_spec(after(buf, pos)) as int
    }

    /// Move the cursor forward by one word step.
    pub fn word_right(&mut self)
        requires
            old(self).pos() + Self::word_fwd_count(old(self).buf@, old(self).pos()) <= usize::MAX,
        ensures
            final(self).buf == old(self).buf,
            final(self).cursor.index == old(self).pos() + Self::word_fwd_count(
                old(self).buf@,
                old(self).pos(),
            ),
            final(self).view == old(self).view,
            final(self).width == old(self).width,
    {
        let gs = clusters_of(&self.buf);
        let k = if self.cursor.index < gs.len() {
            self.cursor.index
        } else {
            gs.len()
        };
        let rest = concat_range(&gs, k, gs.len());
        let cs = chars_of(rest.as_str());
        let n = next_word(&cs);
        self.cursor.index = self.cursor.index + n;
    }

    /// Single raw step of `motion` from grapheme position `pos`.
    fn motion_once_raw(fc: &Vec<char>, motion: &Motion, pos: usize) -> (r: usize)
        requires
            motion_once_ok(fc@, *motion, pos as int),
        ensures
            r == motion_once(fc@, *motion, pos as int),
    {
        let len = fc.len();
        match motion {
            Motion::Left => if pos > 0 {
                pos - 1
            } else {
                0
            },
            Motion::Right => if pos + 1 < len {
                pos + 1
            } else {
                len
            },
            Motion::LineStart => 0,
            Motion::LineEnd => if len > 0 {
                len - 1
            } else {
                0
            },
            Motion::FirstNonBlank => first_non_blank(fc),
            Motion::WordForward => vim_word_forward(fc, pos),
            Motion::WordBackward => vim_word_backward(fc, pos),
            Motion::WordEnd => vim_word_end(fc, pos),
            Motion::BigWordForward => vim_bigword_forward(fc, pos),
            Motion::BigWordBackward => vim_bigword_backward(fc, pos),
            Motion::BigWordEnd => vim_bigword_end(fc, pos),
            _ => pos,
        }
    }

    /// `count` raw steps of `motion` from `pos`.
    fn motion_steps(fc: &Vec<char>, motion: &Motion, pos: usize, count: usize) -> (r: usize)
        requires
            motion_iter_ok(fc@, *motion, pos as int, count as nat),
        ensures
            r == motion_iter(fc@, *motion, pos as int, count as nat),
    {
        let mut p = pos;
        for i in 0..count
            invariant
                motion_iter_ok(fc@, *motion, pos as int, count as nat),
                p == motion_iter(fc@, *motion, pos as int, i as nat),
        {
            proof {
                lemma_motion_iter_ok_prefix(fc@, *motion, pos as int, count as nat, (i + 1) as nat);
                lemma_motion_iter_bound(fc@, *motion, pos as int, i as nat);
            }
            p = Self::motion_once_raw(fc, motion, p);
        }
        p
    }

    /// Grapheme position the cursor would move to after applying `motion`
    /// `count` times, capped at the last grapheme (Normal-mode semantics).
    pub fn motion_target(&self, motion: &Motion, count: usize) -> (r: usize)
        requires
            motion_iter_ok(first_chars(self.buf@), *motion, self.pos(), count as nat),
        ensures
            r == motion_target_spec(first_chars(self.buf@), *motion, self.pos(), count as nat),
    {
        let gs = clusters_of(&self.buf);
        let fc = first_chars_of(&gs);
        let len = gs.len();
        let pos = Self::motion_steps(&fc, motion, self.cursor.index, count);
        if len == 0 {
            0
        } else if pos < len - 1 {
            pos
        } else {
            len - 1
        }
    }

    /// `(lo, hi)` grapheme range covered by `motion` x `count`, with `lo <= hi`.
    fn grapheme_range(fc: &Vec<char>, pos: usize, motion: &Motion, count: usize) -> (r: (usize, usize))
        requires
            grapheme_range_ok(fc@, *motion, pos as int, count as nat),
        ensures
            (r.0 as int, r.1 as int) == grapheme_range_spec(fc@, *motion, pos as int, count as nat),
    {
        let len = fc.len();
        match motion {
            Motion::WholeLine => (0, len),
            Motion::Left => (if pos >= count {
                pos - count
            } else {
                0
            }, pos),
            Motion::Right => (pos, if pos + count < len {
                pos + count
            } else {
                len
            }),
            _ => {
                let target = Self::motion_steps(fc, motion, pos, count);
                let t = if target < len {
                    target
                } else {
                    len
                };
                let (lo, hi) = if t >= pos {
                    (pos, t)
                } else {
                    (t, pos)
                };
                if motion.is_inclusive() {
                    (lo, if hi + 1 < len {
                        hi + 1
                    } else {
                        len
                    })
                } else {
                    (lo, hi)
                }
            },
        }
    }

    /// The text a motion covers, as its operator range in the clusters of `buf`.
    pub open spec fn motion_text(buf: Seq<char>, m: Motion, pos: int, n: nat) -> Seq<char> {
        let (lo, hi) = grapheme_range_spec(first_chars(buf), m, pos, n);
        between(buf, lo, hi)
    }

    /// The clusters `lo..hi` (clamped) of `gs`, concatenated.
    fn extract_grapheme_range(gs: &Vec<String>, lo: usize, hi: usize) -> (r: String)
        ensures
            lo >= hi ==> r@ == Seq::<char>::empty(),
            lo < hi ==> r@ == views(gs@).subrange(
                clamp(lo as int, gs.len() as int),
                clamp(hi as int, gs.len() as int),
            ).flatten(),
    {
        if lo >= hi {
            return String::new();
        }
        let len = gs.len();
        let a = if lo < len {
            lo
        } else {
            len
        };
        let b = if hi < len {
            hi
        } else {
            len
        };
        concat_range(gs, a, b)
    }

    /// `f` is the editor `e` after the text covered by `m` repeated `n`
    /// times is deleted: the buffer loses that range and the cursor goes to
    /// its start, capped at the last grapheme left; an empty range changes
    /// nothing. The view and the width are kept.
    pub open spec fn deleted_by(e: TextEditor, f: TextEditor, m: Motion, n: nat) -> bool {
        let (lo, hi) = grapheme_range_spec(first_chars(e.buf@), m, e.pos(), n);
        &&& lo >= hi ==> f.buf == e.buf && f.cursor == e.cursor
        &&& lo < hi ==> {
            &&& f.buf@ == before(e.buf@, lo) + after(e.buf@, hi)
            &&& f.cursor.index == if f.len() == 0 {
                0
            } else {
                clamp(lo, f.len() - 1)
            }
        }
        &&& f.view == e.view
        &&& f.width == e.width
    }

    /// `f` is the editor `e` after its cursor moved by `m` repeated `n`
    /// times: only the cursor changes.
    pub open spec fn moved_by(e: TextEditor, f: TextEditor, m: Motion, n: nat) -> bool {
        &&& f.buf == e.buf
        &&& f.cursor.index == motion_target_spec(first_chars(e.buf@), m, e.pos(), n)
        &&& f.view == e.view
        &&& f.width == e.width
    }

    /// Delete the text covered by `motion` x `count` and return it. The
    /// cursor is left at the start of the deleted range, capped at the last
    /// grapheme of what remains. What is returned is what `yank_motion`
    /// returns on the editor before the call.
    pub fn delete_motion(&mut self, motion: &Motion, count: usize) -> (rv: RegisterValue)
        requires
            grapheme_range_ok(first_chars(old(self).buf@), *motion, old(self).pos(), count as nat),
        ensures
            rv.text@ == Self::motion_text(old(self).buf@, *motion, old(self).pos(), count as nat),
            rv.kind == MotionType::Char,
            Self::deleted_by(*old(self), *final(self), *motion, count as nat),
    {
        let gs = clusters_of(&self.buf);
        let fc = first_chars_of(&gs);
        let (lo, hi) = Self::grapheme_range(&fc, self.cursor.index, motion, count);
        if lo >= hi {
            return RegisterValue::new(String::new(), MotionType::Char);
        }
        let text = Self::extract_grapheme_range(&gs, lo, hi);
        let len = gs.len();
        let a = if lo < len {
            lo
        } else {
            len
        };
        let b = if hi < len {
            hi
        } else {
            len
        };
        let mut nb = concat_range(&gs, 0, a);
        let rest = concat_range(&gs, b, len);
        nb.append(rest.as_str());
        self.buf = nb;
        let new_gs = clusters_of(&self.buf);
        let new_len = new_gs.len();
        let new_cursor = if new_len == 0 {
            0
        } else if lo < new_len - 1 {
            lo
        } else {
            new_len - 1
        };
        self.cursor.index = new_cursor;
        RegisterValue::new(text, MotionType::Char)
    }

    /// The text covered by `motion` x `count`; the editor is unchanged.
    pub fn yank_motion(&self, motion: &Motion, count: usize) -> (rv: RegisterValue)
        requires
            grapheme_range_ok(first_chars(self.buf@), *motion, self.pos(), count as nat),
        ensures
            rv.text@ == Self::motion_text(self.buf@, *motion, self.pos(), count as nat),
            rv.kind == MotionType::Char,
    {
        let gs = clusters_of(&self.buf);
        let fc = first_chars_of(&gs);
        let (lo, hi) = Self::grapheme_range(&fc, self.cursor.index, motion, count);
        RegisterValue::new(Self::extract_grapheme_range(&gs, lo, hi), MotionType::Char)
    }

    /// Whether `action` can be applied without leaving machine integers or
    /// the buffer.
    pub open spec fn action_ok(&self, action: Action) -> bool {
        match action.operator {
            Operator::Move => motion_iter_ok(
                first_chars(self.buf@),
                action.motion,
                self.pos(),
                action.count as nat,
            ),
            _ => grapheme_range_ok(first_chars(self.buf@), action.motion, self.pos(), action.count as nat),
        }
    }

    /// Apply a complete action: move the cursor, or delete / change / yank
    /// the covered text, returning it. Each operator does exactly what the
    /// single operation does: a move what `motion_target` gives, a yank what
    /// `yank_motion` returns, a delete or change what `delete_motion` does
    /// and returns.
    pub fn apply_action(&mut self, action: &Action) -> (r: Option<RegisterValue>)
        requires
            old(self).action_ok(*action),
        ensures
            action.operator == Operator::Move ==> r is None && Self::moved_by(
                *old(self),
                *final(self),
                action.motion,
                action.count as nat,
            ),
            action.operator == Operator::Yank ==> *final(self) == *old(self) && r is Some
                && r->0.text@ == Self::motion_text(
                old(self).buf@,
                action.motion,
                old(self).pos(),
                action.count as nat,
            ) && r->0.kind == MotionType::Char,
            (action.operator == Operator::Delete || action.operator == Operator::Change) ==> r is Some
                && r->0.text@ == Self::motion_text(
                old(self).buf@,
                action.motion,
                old(self).pos(),
                action.count as nat,
            ) && r->0.kind == MotionType::Char && Self::deleted_by(
                *old(self),
                *final(self),
                action.motion,
                action.count as nat,
            ),
    {
        match action.operator {
            Operator::Move => {
                let target = self.motion_target(&action.motion, action.count);
                self.cursor.index = target;
                None
            },
            Operator::Yank => Some(self.yank_motion(&action.motion, action.count)),
            _ => Some(self.delete_motion(&action.motion, action.count)),
        }
    }
}

/// What a delete removes is exactly what a yank of the same motion from
/// the same editor returns: put back between the text the delete keeps
/// before and after it, the yanked text rebuilds the buffer's clusters; a
/// motion that covers nothing yanks nothing and deletes nothing.
pub proof fn lemma_yank_is_what_delete_removes(e: TextEditor, f: TextEditor, m: Motion, n: nat)
    requires
        grapheme_range_ok(first_chars(e.buf@), m, e.pos(), n),
        TextEditor::deleted_by(e, f, m, n),
    ensures
        ({
            let (lo, hi) = grapheme_range_spec(first_chars(e.buf@), m, e.pos(), n);
            let yanked = TextEditor::motion_text(e.buf@, m, e.pos(), n);
            &&& lo < hi ==> before(e.buf@, lo) + yanked + after(e.buf@, hi) == clusters(e.buf@).flatten()
            &&& lo < hi ==> f.buf@ == before(e.buf@, lo) + after(e.buf@, hi)
            &&& lo >= hi ==> yanked == Seq::<char>::empty() && f.buf == e.buf
        }),
{
    let fc = first_chars(e.buf@);
    let (lo, hi) = grapheme_range_spec(fc, m, e.pos(), n);
    match m {
        Motion::WholeLine | Motion::Left | Motion::Right => {},
        _ => lemma_motion_iter_bound(fc, m, e.pos(), n),
    }
    if lo < hi {
        lemma_delete_keeps_the_rest(e.buf@, lo, hi);
    }
}

} // verus!
