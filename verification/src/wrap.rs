//! Wrapping the lines of a message window: each line of each item is cut
//! into chunks of at most a given number of visible graphemes, cutting
//! between word-bound segments; terminal escape sequences are kept in the
//! chunks but do not count as visible.

use vstd::prelude::*;
use crate::text::{is_csi_final, is_csi_intermediate, is_csi_param};
use crate::unicode::{copy_str, grapheme_clusters, graphemes, is_segmentation, push_char, split_word_bounds, views, word_bound_segments};

verus! {

/// Reading an escape sequence after `ESC [`: the sequence so far, whether it
/// ended, whether it ended on a final byte (and so is kept), and the
/// characters of its last segment that follow it.
pub struct CsiRead {
    pub escape: Seq<char>,
    pub end: bool,
    pub complete: bool,
    pub rest: Seq<char>,
}

pub open spec fn csi_start() -> CsiRead {
    CsiRead { escape: seq!['\x1b', '['], end: false, complete: false, rest: Seq::empty() }
}

/// The characters of one segment, from the `k`-th, read into an escape
/// sequence: parameter and intermediate bytes extend it, a final byte ends
/// and keeps it, any other character ends and drops it; after the end the
/// characters are visible text.
pub open spec fn csi_chars(w: Seq<char>, k: int, st: CsiRead) -> CsiRead
    decreases w.len() - k,
{
    if k < 0 || k >= w.len() {
        st
    } else {
        let c = w[k];
        let next = if !st.end {
            let e = st.escape.push(c);
            if is_csi_param(c) || is_csi_intermediate(c) {
                CsiRead { escape: e, ..st }
            } else if is_csi_final(c) {
                CsiRead { escape: e, end: true, complete: true, ..st }
            } else {
                CsiRead { escape: e, end: true, ..st }
            }
        } else {
            CsiRead { rest: st.rest.push(c), ..st }
        };
        csi_chars(w, k + 1, next)
    }
}

/// The segments from the `j`-th read into an escape sequence, up to and
/// including the one where it ends; returns the index after the last
/// segment read.
pub open spec fn csi_words(ws: Seq<Seq<char>>, j: int, st: CsiRead) -> (int, CsiRead)
    decreases ws.len() - j,
{
    if j < 0 || j >= ws.len() {
        (j, st)
    } else {
        let st2 = csi_chars(ws[j], 0, st);
        if st2.end {
            (j + 1, st2)
        } else {
            csi_words(ws, j + 1, st2)
        }
    }
}

pub proof fn lemma_csi_words_advance(ws: Seq<Seq<char>>, j: int, st: CsiRead)
    requires
        0 <= j,
    ensures
        csi_words(ws, j, st).0 >= j,
        j < ws.len() ==> csi_words(ws, j, st).0 > j,
        csi_words(ws, j, st).0 <= if j < ws.len() {
            ws.len() as int
        } else {
            j
        },
    decreases ws.len() - j,
{
    if j < ws.len() {
        let st2 = csi_chars(ws[j], 0, st);
        if !st2.end {
            lemma_csi_words_advance(ws, j + 1, st2);
        }
    }
}

/// The next step of wrapping at segment `i` (`i` < `ws.len()`): the index
/// of the segment after it, the chunk with any kept escape sequence added,
/// and the visible text it brings.
pub open spec fn wrap_step(ws: Seq<Seq<char>>, i: int, chunk: Seq<char>) -> (int, Seq<char>, Seq<char>) {
    let w = ws[i];
    if w.len() > 0 && w[0] == '\x1b' {
        if i + 1 >= ws.len() {
            (i + 1, chunk, Seq::empty())
        } else if ws[i + 1] != seq!['['] {
            (i + 2, chunk, Seq::empty())
        } else {
            let (j, st) = csi_words(ws, i + 2, csi_start());
            (j, if st.complete {
                chunk + st.escape
            } else {
                chunk
            }, st.rest)
        }
    } else {
        (i + 1, chunk, w)
    }
}

/// The chunks of a line from segment `i` on, given the chunks already cut,
/// the chunk being built and its visible length: a visible piece that
/// would take the chunk past `max` visible graphemes starts a new chunk.
pub open spec fn wrap_words(
    ws: Seq<Seq<char>>,
    i: int,
    max: int,
    out: Seq<Seq<char>>,
    chunk: Seq<char>,
    len: int,
) -> Seq<Seq<char>>
    decreases ws.len() - i,
{
    if i < 0 || i >= ws.len() {
        out.push(chunk)
    } else {
        proof {
            lemma_csi_words_advance(ws, i + 2, csi_start());
        }
        let (next, chunk1, visible) = wrap_step(ws, i, chunk);
        if visible.len() == 0 {
            wrap_words(ws, next, max, out, chunk1, len)
        } else {
            let g = grapheme_clusters(visible).len() as int;
            if len + g > max {
                wrap_words(ws, next, max, out.push(chunk1), visible, g)
            } else {
                wrap_words(ws, next, max, out, chunk1 + visible, len + g)
            }
        }
    }
}

/// The chunks a line is cut into for a window `max` graphemes wide.
pub open spec fn wrap_line_spec(line: Seq<char>, max: int) -> Seq<Seq<char>> {
    wrap_words(word_bound_segments(line), 0, max, Seq::empty(), Seq::empty(), 0)
}

proof fn lemma_segmentation_len(pieces: Seq<Seq<char>>, s: Seq<char>)
    requires
        is_segmentation(pieces, s),
    ensures
        pieces.len() <= s.len(),
    decreases pieces.len(),
{
    if pieces.len() > 0 {
        let init = pieces.drop_last();
        init.lemma_flatten_push(pieces.last());
        assert(init.push(pieces.last()) =~= pieces);
        assert(is_segmentation(init, init.flatten()));
        lemma_segmentation_len(init, init.flatten());
    }
}

proof fn lemma_csi_chars_rest(w: Seq<char>, k: int, st: CsiRead)
    requires
        0 <= k <= w.len(),
        !st.end ==> st.rest.len() == 0,
    ensures
        csi_chars(w, k, st).rest.len() <= st.rest.len() + (w.len() - k),
        !csi_chars(w, k, st).end ==> csi_chars(w, k, st).rest.len() == 0,
        st.end ==> csi_chars(w, k, st).end,
    decreases w.len() - k,
{
    if k < w.len() {
        let c = w[k];
        let next = if !st.end {
            let e = st.escape.push(c);
            if is_csi_param(c) || is_csi_intermediate(c) {
                CsiRead { escape: e, ..st }
            } else if is_csi_final(c) {
                CsiRead { escape: e, end: true, complete: true, ..st }
            } else {
                CsiRead { escape: e, end: true, ..st }
            }
        } else {
            CsiRead { rest: st.rest.push(c), ..st }
        };
        lemma_csi_chars_rest(w, k + 1, next);
    }
}

proof fn lemma_prefix_len(wv: Seq<Seq<char>>, s: Seq<char>, i: int, next: int)
    requires
        wv.flatten() == s,
        0 <= i <= next <= wv.len(),
    ensures
        wv.take(i).flatten().len() <= wv.take(next).flatten().len() <= s.len(),
        i < next ==> wv.take(i).flatten().len() + wv[next - 1].len() <= wv.take(next).flatten().len(),
{
    vstd::seq_lib::lemma_flatten_concat(wv.take(i), wv.subrange(i, next));
    assert(wv.take(i) + wv.subrange(i, next) =~= wv.take(next));
    vstd::seq_lib::lemma_flatten_concat(wv.take(next), wv.subrange(next, wv.len() as int));
    assert(wv.take(next) + wv.subrange(next, wv.len() as int) =~= wv);
    if i < next {
        let mid = wv.subrange(i, next);
        mid.drop_last().lemma_flatten_push(mid.last());
        assert(mid.drop_last().push(mid.last()) =~= mid);
    }
}

/// Read the segments from `j0` as an escape sequence started by `ESC [`.
fn read_csi(ws: &Vec<String>, j0: usize) -> (r: (usize, String, bool, String))
    requires
        j0 <= ws@.len(),
    ensures
        ({
            let (j, st) = csi_words(views(ws@), j0 as int, csi_start());
            &&& r.0 == j
            &&& r.1@ == st.escape
            &&& r.2 == st.complete
            &&& r.3@ == st.rest
            &&& j0 < r.0 <= ws@.len() || (j0 == ws@.len() && r.0 == j0)
            &&& r.0 >= 1 && st.rest.len() <= views(ws@)[r.0 - 1].len() || st.rest.len() == 0
        }),
{
    let ghost wv = views(ws@);
    let mut escape = copy_str("\x1b[");
    proof {
        reveal_strlit("\x1b[");
    }
    let mut end = false;
    let mut complete = false;
    let mut rest = String::new();
    let mut j = j0;
    assert(escape@ =~= csi_start().escape);
    assert(rest@ =~= Seq::<char>::empty());
    while j < ws.len() && !end
        invariant
            wv == views(ws@),
            j0 <= j <= ws@.len(),
            csi_words(wv, j0 as int, csi_start()) == if end {
                (j as int, CsiRead { escape: escape@, end, complete, rest: rest@ })
            } else {
                csi_words(wv, j as int, CsiRead { escape: escape@, end, complete, rest: rest@ })
            },
            !end ==> rest@.len() == 0,
            end ==> j > j0 && rest@.len() <= wv[j - 1].len(),
        decreases ws@.len() - j + (if end { 0int } else { 1int }),
    {
        let cs = crate::unicode::chars_of(ws[j].as_str());
        assert(wv[j as int] == ws@[j as int]@);
        let ghost st0 = CsiRead { escape: escape@, end, complete, rest: rest@ };
        proof {
            lemma_csi_chars_rest(wv[j as int], 0, st0);
        }
        let mut k: usize = 0;
        while k < cs.len()
            invariant
                cs@ == wv[j as int],
                k <= cs@.len(),
                csi_chars(wv[j as int], 0, st0) == csi_chars(
                    wv[j as int],
                    k as int,
                    CsiRead { escape: escape@, end, complete, rest: rest@ },
                ),
            decreases cs@.len() - k,
        {
            let c = cs[k];
            if !end {
                push_char(&mut escape, c);
                if ('\x30' <= c && c <= '\x3f') || ('\x20' <= c && c <= '\x2f') {
                } else if '\x40' <= c && c <= '\x7e' {
                    end = true;
                    complete = true;
                } else {
                    end = true;
                }
            } else {
                push_char(&mut rest, c);
            }
            k = k + 1;
        }
        j = j + 1;
    }
    (j, escape, complete, rest)
}

/// Cut `line` into the chunks shown in a window `max_len` graphemes wide.
pub fn wrap_line(line: &str, max_len: usize) -> (r: Vec<String>)
    ensures
        views(r@) == wrap_line_spec(line@, max_len as int),
{
    let ws = split_word_bounds(line);
    let ghost wv = views(ws@);
    let n_chars = line.unicode_len();
    let mut out: Vec<String> = Vec::new();
    let mut chunk = String::new();
    let mut len: usize = 0;
    let mut i: usize = 0;
    let ghost total = wrap_line_spec(line@, max_len as int);
    assert(views(out@) =~= Seq::<Seq<char>>::empty());
    assert(chunk@ =~= Seq::<char>::empty());
    assert(wv.take(0).flatten() =~= Seq::<char>::empty());
    while i < ws.len()
        invariant
            wv == views(ws@),
            wv == word_bound_segments(line@),
            is_segmentation(wv, line@),
            n_chars == line@.len(),
            i <= ws@.len(),
            len <= wv.take(i as int).flatten().len(),
            total == wrap_line_spec(line@, max_len as int),
            total == wrap_words(wv, i as int, max_len as int, views(out@), chunk@, len as int),
        decreases ws@.len() - i,
    {
        assert(wv[i as int] == ws@[i as int]@);
        let w = ws[i].as_str();
        let ghost step = wrap_step(wv, i as int, chunk@);
        let ghost out0 = views(out@);
        let ghost chunk0 = chunk@;
        let ghost len0 = len as int;
        proof {
            lemma_csi_words_advance(wv, i + 2, csi_start());
        }
        let next;
        let visible: String;
        if w.unicode_len() > 0 && w.get_char(0) == '\x1b' {
            if i + 1 >= ws.len() {
                next = i + 1;
                visible = String::new();
            } else {
                assert(wv[i + 1] == ws@[i + 1]@);
                let is_bracket = w_is_bracket(ws[i + 1].as_str());
                if !is_bracket {
                    next = i + 2;
                    visible = String::new();
                } else {
                    let (j, escape, complete, rest) = read_csi(&ws, i + 2);
                    if complete {
                        chunk.append(escape.as_str());
                    }
                    next = j;
                    visible = rest;
                }
            }
        } else {
            next = i + 1;
            visible = copy_str(w);
        }
        assert(next == step.0 && chunk@ == step.1 && visible@ == step.2);
        assert(next > i);
        proof {
            lemma_prefix_len(wv, line@, i as int, next as int);
            assert(visible@.len() == 0 || visible@.len() <= wv[next - 1].len());
        }
        if visible.unicode_len() > 0 {
            let gs = graphemes(visible.as_str());
            proof {
                lemma_segmentation_len(views(gs@), visible@);
            }
            let g = gs.len();
            assert(g as int == grapheme_clusters(step.2).len());
            if len + g > max_len {
                let ghost c1 = chunk@;
                out.push(chunk);
                assert(views(out@) =~= out0.push(c1));
                chunk = visible;
                len = g;
            } else {
                chunk.append(visible.as_str());
                len = len + g;
            }
            assert(wrap_words(wv, i as int, max_len as int, out0, chunk0, len0) == wrap_words(
                wv,
                next as int,
                max_len as int,
                views(out@),
                chunk@,
                len as int,
            ));
        } else {
            assert(wrap_words(wv, i as int, max_len as int, out0, chunk0, len0) == wrap_words(
                wv,
                next as int,
                max_len as int,
                views(out@),
                chunk@,
                len as int,
            ));
        }
        i = next;
    }
    let ghost out0 = views(out@);
    let ghost c1 = chunk@;
    out.push(chunk);
    assert(views(out@) =~= out0.push(c1));
    out
}

fn w_is_bracket(s: &str) -> (r: bool)
    ensures
        r == (s@ == seq!['[']),
{
    if s.unicode_len() == 1 && s.get_char(0) == '[' {
        assert(s@ =~= seq!['[']);
        true
    } else {
        false
    }
}

/// A line without the carriage return that ended it, if any.
pub open spec fn strip_cr(l: Seq<char>) -> Seq<char> {
    if l.len() > 0 && l.last() == '\r' {
        l.drop_last()
    } else {
        l
    }
}

/// The lines of `s` from the `k`-th character on, given the line being
/// read and the lines already read: lines end at `\n` (a `\r` before it is
/// dropped), and a last line is kept only if it is not empty.
pub open spec fn lines_from(s: Seq<char>, k: int, cur: Seq<char>, out: Seq<Seq<char>>) -> Seq<Seq<char>>
    decreases s.len() - k,
{
    if k < 0 || k >= s.len() {
        if cur.len() > 0 {
            out.push(cur)
        } else {
            out
        }
    } else if s[k] == '\n' {
        lines_from(s, k + 1, Seq::empty(), out.push(strip_cr(cur)))
    } else {
        lines_from(s, k + 1, cur.push(s[k]), out)
    }
}

/// The lines of a text.
pub open spec fn text_lines(s: Seq<char>) -> Seq<Seq<char>> {
    lines_from(s, 0, Seq::empty(), Seq::empty())
}

/// The lines of `s`, as `str::lines` gives them.
pub fn split_lines(s: &str) -> (r: Vec<String>)
    ensures
        views(r@) == text_lines(s@),
{
    let n = s.unicode_len();
    let mut out: Vec<String> = Vec::new();
    let mut cur = String::new();
    let ghost total = text_lines(s@);
    assert(views(out@) =~= Seq::<Seq<char>>::empty());
    assert(cur@ =~= Seq::<char>::empty());
    for k in 0..n
        invariant
            n == s@.len(),
            total == text_lines(s@),
            total == lines_from(s@, k as int, cur@, views(out@)),
    {
        let c = s.get_char(k);
        if c == '\n' {
            let ghost o = views(out@);
            let l = strip_cr_str(&cur);
            out.push(l);
            assert(views(out@) =~= o.push(strip_cr(cur@)));
            cur = String::new();
            assert(cur@ =~= Seq::<char>::empty());
        } else {
            push_char(&mut cur, c);
        }
    }
    if cur.unicode_len() > 0 {
        let ghost o = views(out@);
        let ghost c1 = cur@;
        out.push(cur);
        assert(views(out@) =~= o.push(c1));
    }
    out
}

fn strip_cr_str(l: &String) -> (r: String)
    ensures
        r@ == strip_cr(l@),
{
    let n = l.unicode_len();
    if n > 0 && l.as_str().get_char(n - 1) == '\r' {
        let r = l.as_str().substring_char(0, n - 1);
        assert(r@ =~= l@.drop_last());
        copy_str(r)
    } else {
        copy_str(l.as_str())
    }
}

/// The chunks of all the lines of all the items, in order.
pub open spec fn items_chunks(items: Seq<Seq<char>>, max: int) -> Seq<Seq<char>>
    decreases items.len(),
{
    if items.len() == 0 {
        Seq::empty()
    } else {
        items_chunks(items.drop_last(), max) + text_lines(items.last()).map_values(
            |l: Seq<char>| wrap_line_spec(l, max),
        ).flatten()
    }
}

/// The rows shown for the items (each already formatted as text) in a
/// window `max_len` graphemes wide.
pub fn rendered_items(items: &Vec<String>, max_len: usize) -> (r: Vec<String>)
    ensures
        views(r@) == items_chunks(views(items@), max_len as int),
{
    let ghost iv = views(items@);
    let mut r: Vec<String> = Vec::new();
    assert(iv.take(0) =~= Seq::<Seq<char>>::empty());
    assert(views(r@) =~= Seq::<Seq<char>>::empty());
    for i in 0..items.len()
        invariant
            iv == views(items@),
            views(r@) == items_chunks(iv.take(i as int), max_len as int),
    {
        assert(iv[i as int] == items@[i as int]@);
        let lines = split_lines(items[i].as_str());
        let ghost lw = text_lines(iv[i as int]).map_values(|l: Seq<char>| wrap_line_spec(l, max_len as int));
        let ghost before = views(r@);
        assert(lw.take(0).flatten() =~= Seq::<Seq<char>>::empty());
        assert(before + lw.take(0).flatten() =~= before);
        for k in 0..lines.len()
            invariant
                views(lines@) == text_lines(iv[i as int]),
                lw == text_lines(iv[i as int]).map_values(|l: Seq<char>| wrap_line_spec(l, max_len as int)),
                views(r@) == before + lw.take(k as int).flatten(),
        {
            assert(views(lines@)[k as int] == lines@[k as int]@);
            let chunks = wrap_line(lines[k].as_str(), max_len);
            let ghost mid = views(r@);
            for m in 0..chunks.len()
                invariant
                    views(r@) == mid + views(chunks@).take(m as int),
            {
                let ghost o = views(r@);
                r.push(copy_str(chunks[m].as_str()));
                assert(views(r@) =~= o.push(chunks@[m as int]@));
                assert(views(chunks@).take(m + 1) =~= views(chunks@).take(m as int).push(chunks@[m as int]@));
            }
            assert(views(chunks@).take(chunks.len() as int) =~= views(chunks@));
            proof {
                lw.take(k as int).lemma_flatten_push(lw[k as int]);
                assert(lw.take(k as int).push(lw[k as int]) =~= lw.take(k + 1));
            }
        }
        assert(lw.take(lines.len() as int) =~= lw);
        assert(iv.take(i + 1).drop_last() =~= iv.take(i as int));
    }
    assert(iv.take(items.len() as int) =~= iv);
    r
}

/// The scroll position of a window of wrapped rows: how many rows from the
/// bottom are hidden below the view, and the view's size.
#[derive(Debug, Clone, Copy, PartialEq, Eq, Structural)]
pub struct RowWindow {
    pub view: usize,
    pub width: usize,
    pub height: usize,
}

impl RowWindow {
    pub fn new() -> (r: Self)
        ensures
            r == (RowWindow { view: 0, width: 0, height: 0 }),
    {
        RowWindow { view: 0, width: 0, height: 0 }
    }

    /// Scroll up by a view's height over `count` rows, stopping at the
    /// first row. Returns whether the first row is reached.
    pub fn page_up(&mut self, count: usize) -> (r: bool)
        requires
            old(self).view + old(self).height <= usize::MAX,
        ensures
            count < old(self).height ==> r && *final(self) == *old(self),
            count >= old(self).height && old(self).view + old(self).height < count - old(self).height ==> !r
                && *final(self) == (RowWindow { view: (old(self).view + old(self).height) as usize, ..*old(self) }),
            count >= old(self).height && old(self).view + old(self).height >= count - old(self).height ==> r
                && *final(self) == (RowWindow { view: (count - old(self).height) as usize, ..*old(self) }),
    {
        if count < self.height {
            return true;
        }
        let max = count - self.height;
        if self.view + self.height < max {
            self.view = self.view + self.height;
            false
        } else {
            self.view = max;
            true
        }
    }

    /// Scroll down by a view's height, stopping at the last row. Returns
    /// whether the last row is reached.
    pub fn page_down(&mut self) -> (r: bool)
        ensures
            old(self).view > old(self).height ==> !r && *final(self) == (RowWindow {
                view: (old(self).view - old(self).height) as usize,
                ..*old(self)
            }),
            old(self).view <= old(self).height ==> r && *final(self) == (RowWindow { view: 0, ..*old(self) }),
    {
        if self.view > self.height {
            self.view = self.view - self.height;
            false
        } else {
            self.view = 0;
            true
        }
    }

    /// How many of `count` rows are above the view.
    pub fn rows_above(&self, count: usize) -> (r: usize)
        requires
            count > self.height ==> self.view <= count - self.height,
        ensures
            count > self.height ==> r == count - self.height - self.view,
            count <= self.height ==> r == 0,
    {
        if count > self.height {
            count - self.height - self.view
        } else {
            0
        }
    }
}

} // verus!
