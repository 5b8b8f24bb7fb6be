//! Tab completion of the input line: the candidates kept for the word being
//! typed, the rotation through them, and the line with the word replaced.

use vstd::prelude::*;
use vstd::utf8::encode_utf8;
use crate::unicode::copy_str;
use crate::word::{words_from, Words};

verus! {

/// `p` is a prefix of `s`.
pub open spec fn has_prefix(s: Seq<char>, p: Seq<char>) -> bool {
    p.len() <= s.len() && s.take(p.len() as int) == p
}

pub open spec fn str_views(v: Seq<String>) -> Seq<Seq<char>> {
    v.map_values(|s: String| s@)
}

/// The candidates that start with `p`, in order.
pub open spec fn with_prefix(cs: Seq<Seq<char>>, p: Seq<char>) -> Seq<Seq<char>>
    decreases cs.len(),
{
    if cs.len() == 0 {
        Seq::empty()
    } else if has_prefix(cs.last(), p) {
        with_prefix(cs.drop_last(), p).push(cs.last())
    } else {
        with_prefix(cs.drop_last(), p)
    }
}

/// Whether `s` starts with `p`.
pub fn starts_with(s: &str, p: &str) -> (r: bool)
    ensures
        r == has_prefix(s@, p@),
{
    let n = p.unicode_len();
    if n > s.unicode_len() {
        return false;
    }
    for i in 0..n
        invariant
            n == p@.len(),
            n <= s@.len(),
            forall|k: int| 0 <= k < i ==> s@[k] == p@[k],
    {
        if s.get_char(i) != p.get_char(i) {
            assert(s@.take(n as int)[i as int] != p@[i as int]);
            return false;
        }
    }
    assert(s@.take(n as int) =~= p@);
    true
}

/// The candidates that start with `prefix`, in order.
pub fn filter_by_prefix(candidates: &Vec<String>, prefix: &str) -> (r: Vec<String>)
    ensures
        str_views(r@) == with_prefix(str_views(candidates@), prefix@),
{
    let ghost cv = str_views(candidates@);
    let mut r: Vec<String> = Vec::new();
    assert(cv.take(0) =~= Seq::<Seq<char>>::empty());
    for i in 0..candidates.len()
        invariant
            cv == str_views(candidates@),
            str_views(r@) == with_prefix(cv.take(i as int), prefix@),
    {
        let ghost before = str_views(r@);
        assert(cv.take(i + 1).drop_last() =~= cv.take(i as int));
        assert(cv[i as int] == candidates@[i as int]@);
        if starts_with(candidates[i].as_str(), prefix) {
            r.push(copy_str(candidates[i].as_str()));
            assert(str_views(r@) =~= before.push(cv[i as int]));
        }
    }
    assert(cv.take(candidates.len() as int) =~= cv);
    r
}

/// The text before character position `cursor`.
pub open spec fn before_cursor(s: Seq<char>, cursor: int) -> Seq<char> {
    s.take(if cursor < s.len() {
        cursor
    } else {
        s.len() as int
    })
}

/// The word being typed at `cursor`: the last word of the text before it.
pub open spec fn word_at_cursor(s: Seq<char>, cursor: int) -> Seq<char> {
    let ws = words_from(before_cursor(s, cursor), 0);
    if ws.len() == 0 {
        Seq::empty()
    } else {
        ws.last()
    }
}

/// The word being typed at character position `cursor`.
pub fn current_word(raw_buf: &str, cursor: usize) -> (r: String)
    ensures
        r@ == word_at_cursor(raw_buf@, cursor as int),
{
    let n = raw_buf.unicode_len();
    let k = if cursor < n {
        cursor
    } else {
        n
    };
    let head = raw_buf.substring_char(0, k);
    assert(head@ =~= before_cursor(raw_buf@, cursor as int));
    let ws = Words::new(head).to_vec();
    if ws.len() == 0 {
        String::new()
    } else {
        let last = ws[ws.len() - 1];
        assert(ws@.map_values(|w: &str| w@)[ws.len() - 1] == last@);
        copy_str(last)
    }
}

/// Number of bytes of the UTF-8 encoding of `s`.
pub open spec fn blen(s: Seq<char>) -> int {
    encode_utf8(s).len() as int
}

/// The words from the `k`-th on, with the one that the byte offset `cursor`
/// falls in (just after its start up to its end) replaced by `completion`;
/// `index` is the byte offset of the `k`-th word.
pub open spec fn replaced_from(ws: Seq<Seq<char>>, k: int, index: int, cursor: int, completion: Seq<char>) -> Seq<char>
    decreases ws.len() - k,
{
    if k < 0 || k >= ws.len() {
        Seq::empty()
    } else {
        let w = ws[k];
        let piece = if index < cursor && cursor <= index + blen(w) {
            completion
        } else {
            w
        };
        piece + replaced_from(ws, k + 1, index + blen(w), cursor, completion)
    }
}

/// The line with the word under `cursor` (the cursor counted in bytes of
/// the words before it) replaced by `completion`.
pub fn complete_words(raw_buf: &str, cursor: usize, completion: &str) -> (r: String)
    requires
        blen(raw_buf@) <= usize::MAX,
    ensures
        r@ == replaced_from(words_from(raw_buf@, 0), 0, 0, cursor as int, completion@),
{
    let ws = Words::new(raw_buf).to_vec();
    let ghost wv = ws@.map_values(|w: &str| w@);
    proof {
        crate::word::lemma_words_partition(raw_buf@, 0);
        assert(raw_buf@.subrange(0, raw_buf@.len() as int) =~= raw_buf@);
    }
    let mut r = String::new();
    let mut index: usize = 0;
    let ghost whole = replaced_from(wv, 0, 0, cursor as int, completion@);
    assert(r@ + whole =~= whole);
    for k in 0..ws.len()
        invariant
            wv == ws@.map_values(|w: &str| w@),
            wv == words_from(raw_buf@, 0),
            wv.flatten() == raw_buf@,
            blen(raw_buf@) <= usize::MAX,
            index == blen(wv.take(k as int).flatten()),
            whole == replaced_from(wv, 0, 0, cursor as int, completion@),
            r@ + replaced_from(wv, k as int, index as int, cursor as int, completion@) == whole,
    {
        let w = ws[k];
        assert(wv[k as int] == w@);
        proof {
            let t = wv.take(k as int);
            t.lemma_flatten_push(w@);
            assert(t.push(w@) =~= wv.take(k + 1));
            crate::word::lemma_encode_utf8_concat(t.flatten(), w@);
            assert(wv.take(k + 1) + wv.subrange(k + 1, wv.len() as int) =~= wv);
            vstd::seq_lib::lemma_flatten_concat(wv.take(k + 1), wv.subrange(k + 1, wv.len() as int));
            crate::word::lemma_encode_utf8_concat(
                wv.take(k + 1).flatten(),
                wv.subrange(k + 1, wv.len() as int).flatten(),
            );
        }
        let len = w.len();
        let ghost rest = replaced_from(wv, k + 1, index + blen(w@), cursor as int, completion@);
        if index < cursor && cursor <= index + len {
            r.append(completion);
        } else {
            r.append(w);
        }
        index = index + len;
        assert(r@ + rest =~= whole);
    }
    r
}

/// One step of the rotation among `n` candidates.
pub open spec fn rotate(c: int, n: int) -> int {
    (c + 1) % n
}

/// The rotation after `k` steps from `c`.
pub open spec fn rotate_n(c: int, n: int, k: nat) -> int
    decreases k,
{
    if k == 0 {
        c
    } else {
        rotate(rotate_n(c, n, (k - 1) as nat), n)
    }
}

/// Asking for completions as many times as there are candidates comes back
/// to the candidate the rotation started at: `k` steps from `c` land on
/// `(c + k) mod n`.
pub proof fn lemma_rotation_cycles(c: int, n: int, k: nat)
    requires
        0 <= c < n,
    ensures
        rotate_n(c, n, k) == (c + k) % n,
        rotate_n(c, n, n as nat) == c,
{
    lemma_rotation_steps(c, n, k);
    lemma_rotation_steps(c, n, n as nat);
    assert((c + n) % n == c) by (nonlinear_arith)
        requires
            0 <= c < n,
    ;
}

proof fn lemma_rotation_steps(c: int, n: int, k: nat)
    requires
        0 <= c < n,
    ensures
        rotate_n(c, n, k) == (c + k) % n,
    decreases k,
{
    if k > 0 {
        lemma_rotation_steps(c, n, (k - 1) as nat);
        let x = c + k - 1;
        assert(((x % n) + 1) % n == (x + 1) % n) by (nonlinear_arith)
            requires
                n > 0,
        ;
    } else {
        assert(c % n == c) by (nonlinear_arith)
            requires
                0 <= c < n,
        ;
    }
}

/// The completions offered for the line, and the one shown next.
#[derive(Debug)]
pub struct CompletionPlugin {
    /// The candidates for the word being completed, once computed.
    pub completions: Option<Vec<String>>,
    /// Index of the candidate shown next.
    pub current_completion: usize,
}

impl CompletionPlugin {
    /// Rotation stays among the candidates.
    pub open spec fn wf(&self) -> bool {
        match self.completions {
            Some(c) => c@.len() == 0 || self.current_completion < c@.len(),
            None => true,
        }
    }

    pub fn new() -> (r: Self)
        ensures
            r.completions is None,
            r.current_completion == 0,
            r.wf(),
    {
        CompletionPlugin { completions: None, current_completion: 0 }
    }

    /// Forget the candidates: the next completion starts afresh.
    pub fn reset_completion(&mut self)
        ensures
            final(self).completions is None,
            final(self).current_completion == 0,
            final(self).wf(),
    {
        self.completions = None;
        self.current_completion = 0;
    }

    /// Keep `candidates` and start the rotation at the first.
    pub fn set_completions(&mut self, candidates: Vec<String>)
        ensures
            final(self).completions == Some(candidates),
            final(self).current_completion == 0,
            final(self).wf(),
    {
        self.completions = Some(candidates);
        self.current_completion = 0;
    }

    /// The candidate to show, moving the rotation on (back to the first
    /// after the last); none when there is no candidate.
    pub fn next_completion(&mut self) -> (r: Option<String>)
        requires
            old(self).wf(),
        ensures
            final(self).wf(),
            final(self).completions == old(self).completions,
            match old(self).completions {
                Some(c) => if c@.len() > 0 {
                    &&& r matches Some(s) && s@ == c@[old(self).current_completion as int]@
                    &&& final(self).current_completion == (old(self).current_completion + 1) % (c@.len() as int)
                } else {
                    r is None && final(self).current_completion == old(self).current_completion
                },
                None => r is None && final(self).current_completion == old(self).current_completion,
            },
    {
        match &self.completions {
            Some(c) => {
                if c.len() > 0 {
                    let s = copy_str(c[self.current_completion].as_str());
                    let n = c.len();
                    self.current_completion = (self.current_completion + 1) % n;
                    Some(s)
                } else {
                    None
                }
            },
            None => None,
        }
    }
}

} // verus!
