//! Splitting a buffer into words (each with its trailing spaces) and
//! converting character positions to byte positions.

use vstd::prelude::*;
use vstd::utf8::{encode_scalar, encode_utf8};
use crate::text::{char_class, char_class_spec, CharClass};
use crate::unicode::chars_of;

verus! {

/// A word ends before position `p` when the character at `p` is not a
/// space and starts a run of another class.
pub open spec fn is_boundary(s: Seq<char>, p: int) -> bool {
    0 < p < s.len() && char_class_spec(s[p]) != CharClass::Space && char_class_spec(s[p])
        != char_class_spec(s[p - 1])
}

/// The end of the word starting at `start`: the next boundary, or the end.
pub open spec fn word_end(s: Seq<char>, start: int) -> int
    decreases s.len() - start,
{
    if start + 1 >= s.len() {
        s.len() as int
    } else if is_boundary(s, start + 1) {
        start + 1
    } else {
        word_end(s, start + 1)
    }
}

/// The words of `s` from position `start` on.
pub open spec fn words_from(s: Seq<char>, start: int) -> Seq<Seq<char>>
    decreases s.len() - start,
{
    if start < 0 || start >= s.len() {
        Seq::empty()
    } else {
        let e = word_end(s, start);
        if e <= start || e > s.len() {
            Seq::empty()
        } else {
            seq![s.subrange(start, e)] + words_from(s, e)
        }
    }
}

pub proof fn lemma_word_end_bounds(s: Seq<char>, start: int)
    requires
        0 <= start < s.len(),
    ensures
        start < word_end(s, start) <= s.len(),
    decreases s.len() - start,
{
    if start + 1 < s.len() && !is_boundary(s, start + 1) {
        lemma_word_end_bounds(s, start + 1);
    }
}

/// The words of a buffer concatenate back to it.
pub proof fn lemma_words_partition(s: Seq<char>, start: int)
    requires
        0 <= start <= s.len(),
    ensures
        words_from(s, start).flatten() == s.subrange(start, s.len() as int),
        forall|i: int| 0 <= i < words_from(s, start).len() ==> (#[trigger] words_from(s, start)[i]).len() > 0,
    decreases s.len() - start,
{
    if start < s.len() {
        lemma_word_end_bounds(s, start);
        let e = word_end(s, start);
        lemma_words_partition(s, e);
        let w = words_from(s, start);
        assert(w.drop_first() =~= words_from(s, e));
        assert(w.flatten() == w[0] + w.drop_first().flatten());
        assert(s.subrange(start, e) + s.subrange(e, s.len() as int) =~= s.subrange(start, s.len() as int));
        assert forall|i: int| 0 <= i < w.len() implies (#[trigger] w[i]).len() > 0 by {
            if i > 0 {
                assert(w[i] == words_from(s, e)[i - 1]);
            }
        }
    } else {
        assert(s.subrange(start, s.len() as int) =~= Seq::<char>::empty());
    }
}

/// Iterator over the words of a buffer, each with its trailing spaces.
pub struct Words<'a> {
    buf: &'a str,
    chars: Vec<char>,
    word_start: usize,
}

impl<'a> Words<'a> {
    /// The whole buffer and the position of the next word.
    pub closed spec fn view(&self) -> (Seq<char>, int) {
        (self.buf@, self.word_start as int)
    }

    pub closed spec fn wf(&self) -> bool {
        self.chars@ == self.buf@ && self.word_start <= self.chars.len()
    }

    /// The words still to come.
    pub open spec fn remaining(&self) -> Seq<Seq<char>> {
        words_from(self@.0, self@.1)
    }

    pub fn new(buf: &'a str) -> (w: Words<'a>)
        ensures
            w.wf(),
            w@ == (buf@, 0int),
    {
        Words { buf, chars: chars_of(buf), word_start: 0 }
    }

    /// The next word, if any.
    pub fn next(&mut self) -> (r: Option<&'a str>)
        requires
            old(self).wf(),
        ensures
            final(self).wf(),
            final(self)@.0 == old(self)@.0,
            old(self).remaining().len() == 0 ==> r is None && final(self).remaining().len() == 0,
            old(self).remaining().len() > 0 ==> r is Some && r->0@ == old(self).remaining()[0]
                && final(self).remaining() == old(self).remaining().drop_first(),
    {
        let n = self.chars.len();
        let start = self.word_start;
        if start >= n {
            return None;
        }
        let mut end = start + 1;
        while end < n && !(char_class(self.chars[end]) != CharClass::Space && char_class(self.chars[end]) != char_class(self.chars[end - 1]))
            invariant
                n == self.chars.len(),
                self.chars@ == self.buf@,
                start < end <= n,
                word_end(self.chars@, start as int) == word_end(self.chars@, end - 1),
            decreases n - end,
        {
            end += 1;
        }
        proof {
            lemma_word_end_bounds(self.chars@, start as int);
            let w = words_from(self.chars@, start as int);
            assert(w.drop_first() =~= words_from(self.chars@, end as int));
        }
        self.word_start = end;
        Some(self.buf.substring_char(start, end))
    }

    /// All the words still to come, in order.
    pub fn to_vec(self) -> (r: Vec<&'a str>)
        requires
            self.wf(),
        ensures
            r@.map_values(|w: &str| w@) == self.remaining(),
    {
        let ghost all = self.remaining();
        let mut it = self;
        let mut r: Vec<&'a str> = Vec::new();
        loop
            invariant
                it.wf(),
                all == self.remaining(),
                all == r@.map_values(|w: &str| w@) + it.remaining(),
            decreases it.remaining().len(),
        {
            let ghost prev = r@.map_values(|w: &str| w@);
            let ghost rem = it.remaining();
            match it.next() {
                Some(w) => {
                    r.push(w);
                    assert(r@.map_values(|w: &str| w@) =~= prev.push(w@));
                    assert(rem =~= seq![rem[0]] + rem.drop_first());
                    assert(all =~= r@.map_values(|w: &str| w@) + it.remaining());
                },
                None => {
                    assert(all =~= r@.map_values(|w: &str| w@));
                    return r;
                },
            }
        }
    }
}

/// Number of bytes of the UTF-8 encoding of `c`.
pub fn utf8_len(c: char) -> (n: usize)
    ensures
        n == encode_scalar(c as u32).len(),
{
    let v = c as u32;
    if v <= 0x7f {
        1
    } else if v <= 0x7ff {
        2
    } else if v <= 0xffff {
        proof {
            vstd::utf8::char_is_scalar(c);
        }
        3
    } else {
        4
    }
}

pub proof fn lemma_encode_utf8_push(s: Seq<char>, c: char)
    ensures
        encode_utf8(s.push(c)) == encode_utf8(s) + encode_scalar(c as u32),
    decreases s.len(),
{
    if s.len() == 0 {
        assert(s.push(c).drop_first() =~= Seq::<char>::empty());
        assert(encode_utf8(Seq::<char>::empty()) =~= Seq::<u8>::empty());
        assert(encode_utf8(s) =~= Seq::<u8>::empty());
        assert(encode_utf8(s.push(c)) =~= encode_scalar(c as u32) + encode_utf8(Seq::<char>::empty()));
    } else {
        lemma_encode_utf8_push(s.drop_first(), c);
        assert(s.push(c).drop_first() =~= s.drop_first().push(c));
        assert(encode_utf8(s.push(c)) =~= encode_scalar(s[0] as u32) + encode_utf8(s.drop_first().push(c)));
    }
}

pub proof fn lemma_encode_utf8_concat(a: Seq<char>, b: Seq<char>)
    ensures
        encode_utf8(a + b) == encode_utf8(a) + encode_utf8(b),
    decreases a.len(),
{
    if a.len() == 0 {
        assert(a + b =~= b);
        assert(encode_utf8(a) =~= Seq::<u8>::empty());
        assert(encode_utf8(a) + encode_utf8(b) =~= encode_utf8(b));
    } else {
        lemma_encode_utf8_concat(a.drop_first(), b);
        assert((a + b).drop_first() =~= a.drop_first() + b);
        assert(encode_utf8(a + b) =~= encode_scalar(a[0] as u32) + encode_utf8(a.drop_first() + b));
    }
}

/// Byte index of the character at position `cursor` in `buf` (the length
/// of `buf` when `cursor` is past its end).
pub fn byte_index(buf: &str, cursor: usize) -> (r: usize)
    requires
        encode_utf8(buf@).len() <= usize::MAX,
    ensures
        r == encode_utf8(buf@.take(if cursor < buf@.len() { cursor as int } else { buf@.len() as int })).len(),
{
    let cs = chars_of(buf);
    let n = if cursor < cs.len() {
        cursor
    } else {
        cs.len()
    };
    let mut r: usize = 0;
    proof {
        assert(cs@.take(0) =~= Seq::<char>::empty());
        assert(encode_utf8(Seq::<char>::empty()) =~= Seq::<u8>::empty());
    }
    for i in 0..n
        invariant
            n <= cs.len(),
            cs@ == buf@,
            r == encode_utf8(cs@.take(i as int)).len(),
            encode_utf8(buf@).len() <= usize::MAX,
    {
        proof {
            lemma_encode_utf8_push(cs@.take(i as int), cs@[i as int]);
            assert(cs@.take(i as int).push(cs@[i as int]) =~= cs@.take(i + 1));
            lemma_encode_utf8_concat(cs@.take(i + 1), cs@.skip(i + 1));
            assert(cs@.take(i + 1) + cs@.skip(i + 1) =~= cs@);
        }
        let w = utf8_len(cs[i]);
        r = r + w;
    }
    r
}

} // verus!
