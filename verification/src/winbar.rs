//! The title bar and the window bar of the chat screen: which window is
//! shown, which windows have news, and what the bars print.

use vstd::prelude::*;
use vstd::utf8::encode_utf8;
use crate::unicode::{copy_str, str_eq};

verus! {

/// A piece of bar text, printed in bold or not.
#[derive(Debug)]
pub struct BarSegment {
    pub text: String,
    pub bold: bool,
}

/// What a bar segment prints.
pub open spec fn segment_views(s: Seq<BarSegment>) -> Seq<(Seq<char>, bool)> {
    s.map_values(|x: BarSegment| (x.text@, x.bold))
}

/// Number of bytes of the UTF-8 encoding of `s`.
pub open spec fn blen(s: Seq<char>) -> int {
    encode_utf8(s).len() as int
}

/// Whether a name differs from `x`.
pub open spec fn other_than(x: Seq<char>) -> spec_fn(Seq<char>) -> bool {
    |w: Seq<char>| w != x
}

pub open spec fn string_views(v: Seq<String>) -> Seq<Seq<char>> {
    v.map_values(|s: String| s@)
}

/// The bar showing the name of the current window.
#[derive(Debug)]
pub struct TitleBar {
    pub window_name: Option<String>,
    pub dirty: bool,
}

impl TitleBar {
    pub fn new() -> (r: Self)
        ensures
            r.window_name is None,
            r.dirty,
    {
        TitleBar { window_name: None, dirty: true }
    }

    pub fn set_name(&mut self, name: &str)
        ensures
            final(self).window_name matches Some(n) && n@ == name@,
            final(self).dirty,
    {
        self.window_name = Some(copy_str(name));
        self.dirty = true;
    }

    /// What the bar prints after its background: a space and the window
    /// name, if there is one.
    pub fn segments(&self) -> (r: Vec<BarSegment>)
        ensures
            segment_views(r@) == match self.window_name {
                Some(n) => seq![(seq![' '] + n@, false)],
                None => Seq::empty(),
            },
    {
        let mut r: Vec<BarSegment> = Vec::new();
        match &self.window_name {
            Some(n) => {
                let mut t = copy_str(" ");
                proof {
                    reveal_strlit(" ");
                }
                t.append(n.as_str());
                r.push(BarSegment { text: t, bold: false });
                assert(segment_views(r@) =~~= seq![(seq![' '] + n@, false)]);
            },
            None => {
                assert(segment_views(r@) =~= Seq::<(Seq<char>, bool)>::empty());
            },
        }
        r
    }
}

/// Once a window is shown, it is no longer listed among the windows with
/// news.
pub proof fn lemma_current_not_highlighted(hl: Seq<Seq<char>>, w: Seq<char>)
    ensures
        !hl.filter(other_than(w)).contains(w),
{
    if hl.filter(other_than(w)).contains(w) {
        let i = choose|i: int| 0 <= i < hl.filter(other_than(w)).len() && hl.filter(other_than(w))[i] == w;
        hl.lemma_filter_pred(other_than(w), i);
    }
}

/// Highlighting a window that is already listed changes nothing, and one
/// that is not adds it once: the list never holds a window twice.
pub proof fn lemma_highlight_keeps_unique(hl: Seq<Seq<char>>, w: Seq<char>)
    requires
        hl.no_duplicates(),
    ensures
        !hl.contains(w) ==> hl.push(w).no_duplicates(),
{
    if !hl.contains(w) {
        assert forall|i: int, j: int| 0 <= i < j < hl.push(w).len() implies hl.push(w)[i] != hl.push(w)[j] by {
            if j == hl.len() {
                assert(hl.contains(hl[i]));
            }
        }
    }
}

/// The segments that list the highlighted windows from the `i`-th on, with
/// `written` bytes printed so far in a bar `width` wide: each name is shown
/// while it fits with room for `, …]`; a cut list ends with `, …`.
pub open spec fn highlight_segments(
    hl: Seq<Seq<char>>,
    width: int,
    written: int,
    first: bool,
    i: int,
) -> Seq<(Seq<char>, bool)>
    decreases hl.len() - i,
{
    if i < 0 || i >= hl.len() {
        if !first {
            seq![(seq![']'], false)]
        } else {
            Seq::empty()
        }
    } else if blen(hl[i]) + written + 4 > width {
        if !first {
            seq![(seq![',', ' ', '…'], false), (seq![']'], false)]
        } else {
            Seq::empty()
        }
    } else if first {
        seq![(seq![' ', '['], false), (hl[i], true)] + highlight_segments(
            hl,
            width,
            written + 3 + blen(hl[i]),
            false,
            i + 1,
        )
    } else {
        seq![(seq![',', ' '], false), (hl[i], true)] + highlight_segments(
            hl,
            width,
            written + 2 + blen(hl[i]),
            false,
            i + 1,
        )
    }
}

/// The segments for the connection and the current window, and the bytes
/// they print.
pub open spec fn head_segments(conn: Option<Seq<char>>, cur: Option<Seq<char>>) -> (Seq<(Seq<char>, bool)>, int) {
    let (c, cw) = match conn {
        Some(a) => (seq![(seq![' '] + a, false)], 1 + blen(a)),
        None => (Seq::empty(), 0),
    };
    match cur {
        Some(w) => (c + seq![(seq![' ', '['], false), (w, true), (seq![']'], false)], cw + 3 + blen(w)),
        None => (c + seq![(seq![' ', '[', ']'], false)], cw + 3),
    }
}

pub open spec fn opt_view(o: Option<String>) -> Option<Seq<char>> {
    match o {
        Some(s) => Some(s@),
        None => None,
    }
}

/// The bar listing the windows: the account, the current window, and the
/// windows with news.
#[derive(Debug)]
pub struct WinBar {
    pub connection: Option<String>,
    pub windows: Vec<String>,
    pub current_window: Option<String>,
    pub highlighted: Vec<String>,
    pub dirty: bool,
}

impl WinBar {
    pub fn new() -> (r: Self)
        ensures
            r.connection is None,
            r.windows@.len() == 0,
            r.current_window is None,
            r.highlighted@.len() == 0,
            r.dirty,
    {
        WinBar {
            connection: None,
            windows: Vec::new(),
            current_window: None,
            highlighted: Vec::new(),
            dirty: true,
        }
    }

    pub fn add_window(&mut self, window: &str)
        ensures
            string_views(final(self).windows@) == string_views(old(self).windows@).push(window@),
            final(self).dirty,
            final(self).connection == old(self).connection,
            final(self).current_window == old(self).current_window,
            final(self).highlighted == old(self).highlighted,
    {
        let ghost before = string_views(self.windows@);
        self.windows.push(copy_str(window));
        assert(string_views(self.windows@) =~= before.push(window@));
        self.dirty = true;
    }

    /// Show `window`: it is no longer highlighted.
    pub fn set_current_window(&mut self, window: &str)
        ensures
            opt_view(final(self).current_window) == Some(window@),
            string_views(final(self).highlighted@) == string_views(old(self).highlighted@).filter(other_than(window@)),
            final(self).dirty,
            final(self).connection == old(self).connection,
            final(self).windows == old(self).windows,
    {
        self.current_window = Some(copy_str(window));
        let ghost hv = string_views(old(self).highlighted@);
        let mut kept: Vec<String> = Vec::new();
        let n = self.highlighted.len();
        assert(hv.take(0).filter(other_than(window@)) =~= Seq::<Seq<char>>::empty());
        for i in 0..n
            invariant
                n == self.highlighted@.len(),
                hv == string_views(self.highlighted@),
                string_views(kept@) == hv.take(i as int).filter(other_than(window@)),
        {
            let ghost before = string_views(kept@);
            proof {
                assert(hv.take(i as int).push(hv[i as int]) =~= hv.take(i + 1));
                hv.take(i as int).lemma_filter_push(hv[i as int], other_than(window@));
            }
            assert(hv[i as int] == self.highlighted@[i as int]@);
            if !str_eq(self.highlighted[i].as_str(), window) {
                kept.push(copy_str(self.highlighted[i].as_str()));
                assert(string_views(kept@) =~= before.push(hv[i as int]));
            }
        }
        assert(hv.take(n as int) =~= hv);
        self.highlighted = kept;
        self.dirty = true;
    }

    /// Mark `window` as having news, once.
    pub fn highlight_window(&mut self, window: &str)
        ensures
            string_views(old(self).highlighted@).contains(window@) ==> final(self).highlighted
                == old(self).highlighted && final(self).dirty == old(self).dirty,
            !string_views(old(self).highlighted@).contains(window@) ==> string_views(
                final(self).highlighted@,
            ) == string_views(old(self).highlighted@).push(window@) && final(self).dirty,
            final(self).connection == old(self).connection,
            final(self).current_window == old(self).current_window,
            final(self).windows == old(self).windows,
    {
        let ghost hv = string_views(self.highlighted@);
        let n = self.highlighted.len();
        for i in 0..n
            invariant
                n == self.highlighted@.len(),
                hv == string_views(self.highlighted@),
                forall|k: int| 0 <= k < i ==> hv[k] != window@,
                *self == *old(self),
        {
            assert(hv[i as int] == self.highlighted@[i as int]@);
            if str_eq(self.highlighted[i].as_str(), window) {
                assert(hv.contains(window@));
                return;
            }
        }
        assert(!hv.contains(window@));
        self.highlighted.push(copy_str(window));
        assert(string_views(self.highlighted@) =~= hv.push(window@));
        self.dirty = true;
    }

    /// The session is connected as `account`.
    pub fn set_connection(&mut self, account: &str)
        ensures
            opt_view(final(self).connection) == Some(account@),
            final(self).dirty,
            final(self).windows == old(self).windows,
            final(self).current_window == old(self).current_window,
            final(self).highlighted == old(self).highlighted,
    {
        self.connection = Some(copy_str(account));
        self.dirty = true;
    }

    /// A message came from `from`: its window is highlighted unless it is
    /// the current one (or there is no such window).
    pub fn on_message(&mut self, from: &str)
        ensures
            string_views(old(self).windows@).contains(from@) && opt_view(old(self).current_window) != Some(
                from@,
            ) ==> ({
                &&& (string_views(old(self).highlighted@).contains(from@) ==> final(self).highlighted
                    == old(self).highlighted)
                &&& (!string_views(old(self).highlighted@).contains(from@) ==> string_views(
                    final(self).highlighted@,
                ) == string_views(old(self).highlighted@).push(from@))
                &&& final(self).dirty
            }),
            !(string_views(old(self).windows@).contains(from@) && opt_view(old(self).current_window)
                != Some(from@)) ==> *final(self) == *old(self),
            final(self).windows == old(self).windows,
            final(self).current_window == old(self).current_window,
            final(self).connection == old(self).connection,
    {
        let ghost wv = string_views(self.windows@);
        let mut found = false;
        for i in 0..self.windows.len()
            invariant
                wv == string_views(self.windows@),
                found == (exists|k: int| 0 <= k < i && wv[k] == from@),
        {
            assert(wv[i as int] == self.windows@[i as int]@);
            if str_eq(self.windows[i].as_str(), from) {
                found = true;
            }
        }
        assert(found == wv.contains(from@));
        let is_current = match &self.current_window {
            Some(c) => str_eq(c.as_str(), from),
            None => false,
        };
        if found && !is_current {
            self.highlight_window(from);
            self.dirty = true;
        }
    }

    /// What the bar prints after its background, in a bar `width` wide.
    pub fn segments(&self, width: u16) -> (r: Vec<BarSegment>)
        requires
            head_segments(opt_view(self.connection), opt_view(self.current_window)).1 + 65540
                <= usize::MAX,
            forall|i: int|
                0 <= i < self.highlighted@.len() ==> blen(#[trigger] self.highlighted@[i]@) + head_segments(
                    opt_view(self.connection),
                    opt_view(self.current_window),
                ).1 + 65540 <= usize::MAX,
        ensures
            ({
                let (h, written) = head_segments(opt_view(self.connection), opt_view(self.current_window));
                segment_views(r@) == h + highlight_segments(
                    string_views(self.highlighted@),
                    width as int,
                    written,
                    true,
                    0,
                )
            }),
    {
        proof {
            reveal_strlit(" ");
            reveal_strlit(" [");
            reveal_strlit("]");
            reveal_strlit(" []");
            reveal_strlit(", ");
            reveal_strlit(", …");
        }
        let mut r: Vec<BarSegment> = Vec::new();
        let mut written: usize = 0;
        match &self.connection {
            Some(a) => {
                let mut t = copy_str(" ");
                t.append(a.as_str());
                r.push(BarSegment { text: t, bold: false });
                written = 1 + a.as_str().len();
            },
            None => {},
        }
        match &self.current_window {
            Some(w) => {
                r.push(BarSegment { text: copy_str(" ["), bold: false });
                r.push(BarSegment { text: copy_str(w.as_str()), bold: true });
                r.push(BarSegment { text: copy_str("]"), bold: false });
                written = written + 3 + w.as_str().len();
            },
            None => {
                r.push(BarSegment { text: copy_str(" []"), bold: false });
                written = written + 3;
            },
        }
        let ghost head = head_segments(opt_view(self.connection), opt_view(self.current_window));
        assert(segment_views(r@) =~~= head.0);
        assert(written == head.1);
        let ghost hv = string_views(self.highlighted@);
        let ghost whole = head.0 + highlight_segments(hv, width as int, head.1, true, 0);
        let mut first = true;
        let mut i: usize = 0;
        let n = self.highlighted.len();
        let mut stop = false;
        while i < n && !stop
            invariant
                n == self.highlighted@.len(),
                i <= n,
                hv == string_views(self.highlighted@),
                head == head_segments(opt_view(self.connection), opt_view(self.current_window)),
                forall|k: int| 0 <= k < self.highlighted@.len() ==> blen(#[trigger] self.highlighted@[k]@)
                    + head.1 + 65540 <= usize::MAX,
                head.1 <= written <= head.1 + width,
                whole == head.0 + highlight_segments(hv, width as int, head.1, true, 0),
                !stop ==> segment_views(r@) + highlight_segments(hv, width as int, written as int, first, i as int)
                    == whole,
                stop ==> segment_views(r@) == whole,
            decreases n - i + (if stop { 0int } else { 1int }),
        {
            proof {
                reveal_strlit(" [");
                reveal_strlit("]");
                reveal_strlit(", ");
                reveal_strlit(", …");
            }
            let w = &self.highlighted[i];
            assert(hv[i as int] == w@);
            let ghost before = segment_views(r@);
            if w.as_str().len() + written + 4 > width as usize {
                if !first {
                    r.push(BarSegment { text: copy_str(", …"), bold: false });
                    r.push(BarSegment { text: copy_str("]"), bold: false });
                    assert(segment_views(r@) =~~= before + seq![
                        (seq![',', ' ', '…'], false),
                        (seq![']'], false),
                    ]);
                } else {
                    assert(segment_views(r@) =~= before + Seq::<(Seq<char>, bool)>::empty());
                }
                stop = true;
            } else {
                let ghost first0 = first;
                let ghost written0 = written as int;
                let ghost sep: Seq<char> = if first {
                    seq![' ', '[']
                } else {
                    seq![',', ' ']
                };
                if first {
                    r.push(BarSegment { text: copy_str(" ["), bold: false });
                    written = written + 3;
                    first = false;
                } else {
                    r.push(BarSegment { text: copy_str(", "), bold: false });
                    written = written + 2;
                }
                r.push(BarSegment { text: copy_str(w.as_str()), bold: true });
                written = written + w.as_str().len();
                assert(segment_views(r@) =~~= before + seq![(sep, false), (w@, true)]);
                assert(highlight_segments(hv, width as int, written0, first0, i as int) == seq![
                    (sep, false),
                    (w@, true),
                ] + highlight_segments(hv, width as int, written as int, false, i + 1));
                assert(segment_views(r@) + highlight_segments(hv, width as int, written as int, false, i + 1)
                    =~= before + highlight_segments(hv, width as int, written0, first0, i as int));
                i = i + 1;
            }
        }
        if !stop && !first {
            let ghost before = segment_views(r@);
            r.push(BarSegment { text: copy_str("]"), bold: false });
            assert(segment_views(r@) =~~= before + seq![(seq![']'], false)]);
        }
        r
    }
}

} // verus!
