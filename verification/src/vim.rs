//! Vim word motions over the first characters of a buffer's grapheme
//! clusters.

use vstd::prelude::*;
use crate::unicode::{char_is_alphanumeric, is_alphanumeric};

verus! {

/// Word characters for `w`, `b`, `e`.
pub open spec fn is_word_char(c: char) -> bool {
    char_is_alphanumeric(c) || c == '_'
}

/// Blanks separate words.
pub open spec fn is_blank(c: char) -> bool {
    c == ' ' || c == '\t'
}

/// Character classes the motions skip over.
#[derive(Clone, Copy, PartialEq, Eq, Structural)]
pub enum Cls {
    Word,
    Punct,
    Space,
    NonSpace,
}

pub open spec fn in_cls(k: Cls, c: char) -> bool {
    match k {
        Cls::Word => is_word_char(c),
        Cls::Punct => !is_word_char(c) && !is_blank(c),
        Cls::Space => is_blank(c),
        Cls::NonSpace => !is_blank(c),
    }
}

/// The class a word starting with `c` continues in.
pub open spec fn word_cls(c: char) -> Cls {
    if is_word_char(c) {
        Cls::Word
    } else {
        Cls::Punct
    }
}

/// First index at or after `i` that is past the end or not of class `k`.
pub open spec fn skip_fwd(fc: Seq<char>, i: int, k: Cls) -> int
    decreases fc.len() - i,
{
    if 0 <= i && i < fc.len() && in_cls(k, fc[i]) {
        skip_fwd(fc, i + 1, k)
    } else {
        i
    }
}

/// Moving down from `i`, the first index that is 0 or not of class `k`.
pub open spec fn skip_back(fc: Seq<char>, i: int, k: Cls) -> int
    decreases i,
{
    if 0 < i && i < fc.len() && in_cls(k, fc[i]) {
        skip_back(fc, i - 1, k)
    } else {
        i
    }
}

/// Moving down from `i`, the first index that is 0 or whose predecessor is
/// not of class `k`.
pub open spec fn skip_back_prev(fc: Seq<char>, i: int, k: Cls) -> int
    decreases i,
{
    if 0 < i && i <= fc.len() && in_cls(k, fc[i - 1]) {
        skip_back_prev(fc, i - 1, k)
    } else {
        i
    }
}

/// `w`: start of the next word.
pub open spec fn word_forward_spec(fc: Seq<char>, pos: int) -> int {
    if pos >= fc.len() {
        pos
    } else {
        let c = fc[pos];
        let i = if is_word_char(c) {
            skip_fwd(fc, pos, Cls::Word)
        } else if !is_blank(c) {
            skip_fwd(fc, pos, Cls::Punct)
        } else {
            pos
        };
        skip_fwd(fc, i, Cls::Space)
    }
}

/// `b`: start of the current or previous word.
pub open spec fn word_backward_spec(fc: Seq<char>, pos: int) -> int {
    if pos == 0 {
        0
    } else {
        let i = skip_back(fc, pos - 1, Cls::Space);
        if is_blank(fc[i]) {
            0
        } else {
            skip_back_prev(fc, i, word_cls(fc[i]))
        }
    }
}

/// `e`: end of the current or next word (inclusive position).
pub open spec fn word_end_spec(fc: Seq<char>, pos: int) -> int {
    if fc.len() == 0 {
        0
    } else if pos + 1 >= fc.len() {
        fc.len() - 1
    } else {
        let i = skip_fwd(fc, pos + 1, Cls::Space);
        if i >= fc.len() {
            fc.len() - 1
        } else {
            skip_fwd(fc, i + 1, word_cls(fc[i])) - 1
        }
    }
}

/// `W`: start of the next blank-separated WORD.
pub open spec fn bigword_forward_spec(fc: Seq<char>, pos: int) -> int {
    skip_fwd(fc, skip_fwd(fc, pos, Cls::NonSpace), Cls::Space)
}

/// `B`: start of the current or previous WORD.
pub open spec fn bigword_backward_spec(fc: Seq<char>, pos: int) -> int {
    if pos == 0 {
        0
    } else {
        let i = skip_back(fc, pos - 1, Cls::Space);
        if is_blank(fc[i]) {
            0
        } else {
            skip_back_prev(fc, i, Cls::NonSpace)
        }
    }
}

/// `E`: end of the current or next WORD (inclusive position).
pub open spec fn bigword_end_spec(fc: Seq<char>, pos: int) -> int {
    if fc.len() == 0 {
        0
    } else if pos + 1 >= fc.len() {
        fc.len() - 1
    } else {
        let i = skip_fwd(fc, pos + 1, Cls::Space);
        if i >= fc.len() {
            fc.len() - 1
        } else {
            skip_fwd(fc, i + 1, Cls::NonSpace) - 1
        }
    }
}

/// `^`: index of the first non-blank, or 0 when there is none.
pub open spec fn first_non_blank_spec(fc: Seq<char>) -> int {
    let j = skip_fwd(fc, 0, Cls::Space);
    if j < fc.len() {
        j
    } else {
        0
    }
}

pub proof fn lemma_skip_fwd_bounds(fc: Seq<char>, i: int, k: Cls)
    ensures
        i <= skip_fwd(fc, i, k),
        0 <= i ==> skip_fwd(fc, i, k) <= if i <= fc.len() { fc.len() as int } else { i },
        0 <= i < fc.len() && !in_cls(k, fc[i]) ==> skip_fwd(fc, i, k) == i,
        0 <= skip_fwd(fc, i, k) < fc.len() ==> !in_cls(k, fc[skip_fwd(fc, i, k)]),
        forall|j: int| i <= j < skip_fwd(fc, i, k) ==> in_cls(k, #[trigger] fc[j]),
    decreases fc.len() - i,
{
    if 0 <= i && i < fc.len() && in_cls(k, fc[i]) {
        lemma_skip_fwd_bounds(fc, i + 1, k);
    }
}

/// The kind of a character for `w`: a word character (letters, digits,
/// `_`), a blank, or punctuation (anything else).
pub open spec fn char_kind(c: char) -> Cls {
    if is_word_char(c) {
        Cls::Word
    } else if is_blank(c) {
        Cls::Space
    } else {
        Cls::Punct
    }
}

/// `w` crosses the rest of the word under the cursor (word characters, or
/// punctuation, which is a word kind of its own) and the blanks after it,
/// and stops on the next word's first character: it moves forward; every
/// character it passes is of the starting character's kind or a blank;
/// once a character of another kind is passed only blanks follow; and it
/// stops at the end or on a non-blank that starts a new word: of another
/// kind, or after a blank.
pub proof fn lemma_word_forward_next_word(fc: Seq<char>, pos: int)
    requires
        0 <= pos < fc.len(),
    ensures
        ({
            let r = word_forward_spec(fc, pos);
            let k = char_kind(fc[pos]);
            &&& pos < r <= fc.len()
            &&& r < fc.len() ==> !is_blank(fc[r])
            &&& forall|i: int| pos <= i < r ==> #[trigger] char_kind(fc[i]) == k || is_blank(fc[i])
            &&& forall|i: int, j: int|
                pos <= i < j < r && #[trigger] char_kind(fc[i]) != k ==> is_blank(#[trigger] fc[j])
            &&& r < fc.len() && char_kind(fc[r]) == k ==> is_blank(fc[r - 1])
        }),
{
    let c = fc[pos];
    let k = char_kind(c);
    let i = if k == Cls::Space { pos } else { skip_fwd(fc, pos, k) };
    lemma_skip_fwd_bounds(fc, pos, k);
    lemma_skip_fwd_bounds(fc, i, Cls::Space);
    let r = word_forward_spec(fc, pos);
    assert(r == skip_fwd(fc, i, Cls::Space));
    assert forall|a: int| pos <= a < r implies #[trigger] char_kind(fc[a]) == k || is_blank(fc[a]) by {
        if a < i {
            assert(in_cls(k, fc[a]));
        } else {
            assert(in_cls(Cls::Space, fc[a]));
        }
    }
    assert forall|a: int, b: int| pos <= a < b < r && #[trigger] char_kind(fc[a]) != k implies is_blank(
        #[trigger] fc[b],
    ) by {
        if a < i {
            assert(in_cls(k, fc[a]));
        }
        assert(in_cls(Cls::Space, fc[b]));
    }
    if r < fc.len() {
        assert(!in_cls(Cls::Space, fc[r]));
        if char_kind(fc[r]) == k {
            if r == i {
                assert(!in_cls(k, fc[i]));
            } else {
                assert(in_cls(Cls::Space, fc[r - 1]));
            }
        }
    }
}

proof fn lemma_skip_back_facts(fc: Seq<char>, i: int, k: Cls)
    requires
        0 <= i < fc.len(),
    ensures
        0 <= skip_back(fc, i, k) <= i,
        forall|j: int| skip_back(fc, i, k) < j <= i ==> in_cls(k, #[trigger] fc[j]),
        skip_back(fc, i, k) > 0 ==> !in_cls(k, fc[skip_back(fc, i, k)]),
    decreases i,
{
    if 0 < i && in_cls(k, fc[i]) {
        lemma_skip_back_facts(fc, i - 1, k);
    }
}

proof fn lemma_skip_back_prev_facts(fc: Seq<char>, i: int, k: Cls)
    requires
        0 <= i <= fc.len(),
    ensures
        0 <= skip_back_prev(fc, i, k) <= i,
        forall|j: int| skip_back_prev(fc, i, k) <= j < i ==> in_cls(k, #[trigger] fc[j]),
        skip_back_prev(fc, i, k) > 0 ==> !in_cls(k, fc[skip_back_prev(fc, i, k) - 1]),
    decreases i,
{
    if 0 < i && in_cls(k, fc[i - 1]) {
        lemma_skip_back_prev_facts(fc, i - 1, k);
    }
}

/// `W` crosses the rest of the blank-separated WORD under the cursor and
/// the blanks after it: it moves forward; once a blank is passed only
/// blanks follow; and it stops at the end or on a non-blank that follows a
/// blank.
pub proof fn lemma_bigword_forward_next_word(fc: Seq<char>, pos: int)
    requires
        0 <= pos < fc.len(),
    ensures
        ({
            let r = bigword_forward_spec(fc, pos);
            &&& pos < r <= fc.len()
            &&& r < fc.len() ==> !is_blank(fc[r]) && is_blank(fc[r - 1])
            &&& forall|i: int, j: int| pos <= i < j < r && is_blank(#[trigger] fc[i]) ==> is_blank(#[trigger] fc[j])
        }),
{
    let i = skip_fwd(fc, pos, Cls::NonSpace);
    lemma_skip_fwd_bounds(fc, pos, Cls::NonSpace);
    lemma_skip_fwd_bounds(fc, i, Cls::Space);
    let r = bigword_forward_spec(fc, pos);
    assert forall|a: int, b: int| pos <= a < b < r && is_blank(#[trigger] fc[a]) implies is_blank(#[trigger] fc[b]) by {
        if a < i {
            assert(in_cls(Cls::NonSpace, fc[a]));
        }
        assert(in_cls(Cls::Space, fc[b]));
    }
    if r < fc.len() {
        assert(!in_cls(Cls::Space, fc[r]));
        if r == i {
            assert(i > pos) by {
                if i == pos {
                    assert(!in_cls(Cls::NonSpace, fc[pos]));
                    assert(in_cls(Cls::Space, fc[pos]));
                }
            }
            assert(!in_cls(Cls::NonSpace, fc[i]));
        } else {
            assert(in_cls(Cls::Space, fc[r - 1]));
        }
    }
    if r == pos {
        assert(!in_cls(Cls::NonSpace, fc[pos]));
        assert(in_cls(Cls::Space, fc[pos]));
    }
}

/// `e` goes to the last character of the current or next word (word
/// characters, or else punctuation): it moves forward and stays in the
/// buffer; from the first non-blank it reaches, every character up to where
/// it stops is of that character's kind; and it stops on a non-blank whose
/// next character, if any, is of another kind.
pub proof fn lemma_word_end_last_of_word(fc: Seq<char>, pos: int)
    requires
        0 <= pos,
        pos + 1 < fc.len(),
    ensures
        ({
            let r = word_end_spec(fc, pos);
            &&& pos < r < fc.len()
            &&& forall|a: int, b: int|
                pos < a < b <= r && !is_blank(#[trigger] fc[a]) ==> char_kind(#[trigger] fc[b]) == char_kind(fc[a])
            &&& r + 1 < fc.len() ==> char_kind(fc[r]) != Cls::Space && char_kind(fc[r + 1]) != char_kind(fc[r])
        }),
{
    let i = skip_fwd(fc, pos + 1, Cls::Space);
    lemma_skip_fwd_bounds(fc, pos + 1, Cls::Space);
    let r = word_end_spec(fc, pos);
    if i < fc.len() {
        let k = word_cls(fc[i]);
        assert(!in_cls(Cls::Space, fc[i]));
        lemma_skip_fwd_bounds(fc, i + 1, k);
        let e = skip_fwd(fc, i + 1, k);
        assert(r == e - 1);
        assert(char_kind(fc[i]) == k);
        assert forall|a: int, b: int| pos < a < b <= r && !is_blank(#[trigger] fc[a]) implies char_kind(
            #[trigger] fc[b],
        ) == char_kind(fc[a]) by {
            if a < i {
                assert(in_cls(Cls::Space, fc[a]));
            }
            if a > i {
                assert(in_cls(k, fc[a]));
            }
            assert(in_cls(k, fc[b]));
        }
        if r + 1 < fc.len() {
            assert(!in_cls(k, fc[e]));
            if r > i {
                assert(in_cls(k, fc[r]));
            }
        }
    } else {
        assert forall|a: int, b: int| pos < a < b <= r && !is_blank(#[trigger] fc[a]) implies char_kind(
            #[trigger] fc[b],
        ) == char_kind(fc[a]) by {
            assert(in_cls(Cls::Space, fc[a]));
        }
    }
}

/// `b` goes to the first character of the current or previous word (word
/// characters, or else punctuation): it moves back; every character from
/// there to the cursor is of that character's kind or a blank; once a
/// character of another kind is passed only blanks follow; and it stops at
/// the start of the buffer or on a non-blank whose previous character is of
/// another kind.
pub proof fn lemma_word_backward_word_start(fc: Seq<char>, pos: int)
    requires
        0 < pos <= fc.len(),
    ensures
        ({
            let r = word_backward_spec(fc, pos);
            let k = char_kind(fc[r]);
            &&& 0 <= r < pos
            &&& forall|a: int| r <= a < pos ==> #[trigger] char_kind(fc[a]) == k || is_blank(fc[a])
            &&& forall|a: int, b: int|
                r <= a < b < pos && #[trigger] char_kind(fc[a]) != k ==> is_blank(#[trigger] fc[b])
            &&& r > 0 ==> k != Cls::Space && char_kind(fc[r - 1]) != k
        }),
{
    let i = skip_back(fc, pos - 1, Cls::Space);
    lemma_skip_back_facts(fc, pos - 1, Cls::Space);
    let r = word_backward_spec(fc, pos);
    if is_blank(fc[i]) {
        assert(i == 0);
        assert forall|a: int| r <= a < pos implies is_blank(#[trigger] fc[a]) by {
            if a > i {
                assert(in_cls(Cls::Space, fc[a]));
            }
        }
    } else {
        let kc = word_cls(fc[i]);
        lemma_skip_back_prev_facts(fc, i, kc);
        assert(char_kind(fc[i]) == kc);
        assert forall|a: int| r <= a <= i implies #[trigger] char_kind(fc[a]) == kc by {
            if a < i {
                assert(in_cls(kc, fc[a]));
            }
        }
        assert(char_kind(fc[r]) == kc);
        assert forall|a: int| r <= a < pos implies #[trigger] char_kind(fc[a]) == kc || is_blank(fc[a]) by {
            if a > i {
                assert(in_cls(Cls::Space, fc[a]));
            }
        }
        assert forall|a: int, b: int| r <= a < b < pos && #[trigger] char_kind(fc[a]) != kc implies is_blank(
            #[trigger] fc[b],
        ) by {
            if a <= i {
                assert(char_kind(fc[a]) == kc);
            }
            assert(in_cls(Cls::Space, fc[b]));
        }
        if r > 0 {
            assert(!in_cls(kc, fc[r - 1]));
        }
    }
}

pub proof fn lemma_skip_back_bounds(fc: Seq<char>, i: int, k: Cls)
    ensures
        0 <= i ==> 0 <= skip_back(fc, i, k) <= i,
        i < 0 ==> skip_back(fc, i, k) == i,
    decreases i,
{
    if 0 < i && i < fc.len() && in_cls(k, fc[i]) {
        lemma_skip_back_bounds(fc, i - 1, k);
    }
}

pub proof fn lemma_skip_back_prev_bounds(fc: Seq<char>, i: int, k: Cls)
    ensures
        0 <= i ==> 0 <= skip_back_prev(fc, i, k) <= i,
    decreases i,
{
    if 0 < i && i <= fc.len() && in_cls(k, fc[i - 1]) {
        lemma_skip_back_prev_bounds(fc, i - 1, k);
    }
}

pub fn is_word(c: char) -> (r: bool)
    ensures
        r == is_word_char(c),
{
    is_alphanumeric(c) || c == '_'
}

pub fn is_space(c: char) -> (r: bool)
    ensures
        r == is_blank(c),
{
    c == ' ' || c == '\t'
}

fn in_cls_exec(k: Cls, c: char) -> (r: bool)
    ensures
        r == in_cls(k, c),
{
    match k {
        Cls::Word => is_word(c),
        Cls::Punct => !is_word(c) && !is_space(c),
        Cls::Space => is_space(c),
        Cls::NonSpace => !is_space(c),
    }
}

fn word_cls_exec(c: char) -> (r: Cls)
    ensures
        r == word_cls(c),
{
    if is_word(c) {
        Cls::Word
    } else {
        Cls::Punct
    }
}

fn skip_forward(fc: &Vec<char>, start: usize, k: Cls) -> (r: usize)
    ensures
        r == skip_fwd(fc@, start as int, k),
{
    let mut i = start;
    while i < fc.len() && in_cls_exec(k, fc[i])
        invariant
            start <= i,
            skip_fwd(fc@, i as int, k) == skip_fwd(fc@, start as int, k),
        decreases fc.len() - i,
    {
        i += 1;
    }
    i
}

fn skip_backward(fc: &Vec<char>, start: usize, k: Cls) -> (r: usize)
    requires
        start < fc.len(),
    ensures
        r == skip_back(fc@, start as int, k),
        r <= start,
{
    let mut i = start;
    while i > 0 && in_cls_exec(k, fc[i])
        invariant
            i <= start < fc.len(),
            skip_back(fc@, i as int, k) == skip_back(fc@, start as int, k),
        decreases i,
    {
        i -= 1;
    }
    i
}

fn skip_backward_prev(fc: &Vec<char>, start: usize, k: Cls) -> (r: usize)
    requires
        start <= fc.len(),
    ensures
        r == skip_back_prev(fc@, start as int, k),
        r <= start,
{
    let mut i = start;
    while i > 0 && in_cls_exec(k, fc[i - 1])
        invariant
            i <= start <= fc.len(),
            skip_back_prev(fc@, i as int, k) == skip_back_prev(fc@, start as int, k),
        decreases i,
    {
        i -= 1;
    }
    i
}

/// `w` — move to the start of the next word.
pub fn vim_word_forward(fc: &Vec<char>, pos: usize) -> (r: usize)
    ensures
        r == word_forward_spec(fc@, pos as int),
{
    let len = fc.len();
    if pos >= len {
        return pos;
    }
    let c = fc[pos];
    let i = if is_word(c) {
        skip_forward(fc, pos, Cls::Word)
    } else if !is_space(c) {
        skip_forward(fc, pos, Cls::Punct)
    } else {
        pos
    };
    skip_forward(fc, i, Cls::Space)
}

/// `b` — move to the start of the current or previous word.
pub fn vim_word_backward(fc: &Vec<char>, pos: usize) -> (r: usize)
    requires
        pos <= fc.len(),
    ensures
        r == word_backward_spec(fc@, pos as int),
        r <= pos,
{
    if pos == 0 {
        return 0;
    }
    let i = skip_backward(fc, pos - 1, Cls::Space);
    if is_space(fc[i]) {
        return 0;
    }
    skip_backward_prev(fc, i, word_cls_exec(fc[i]))
}

/// `e` — move to the end of the current or next word.
pub fn vim_word_end(fc: &Vec<char>, pos: usize) -> (r: usize)
    requires
        fc.len() > 0 ==> pos < usize::MAX,
    ensures
        r == word_end_spec(fc@, pos as int),
{
    let len = fc.len();
    if len == 0 {
        return 0;
    }
    if pos + 1 >= len {
        return len - 1;
    }
    let i = skip_forward(fc, pos + 1, Cls::Space);
    if i >= len {
        return len - 1;
    }
    let e = skip_forward(fc, i + 1, word_cls_exec(fc[i]));
    proof {
        lemma_skip_fwd_bounds(fc@, i + 1, word_cls(fc@[i as int]));
    }
    e - 1
}

/// `W` — move to the start of the next WORD.
pub fn vim_bigword_forward(fc: &Vec<char>, pos: usize) -> (r: usize)
    ensures
        r == bigword_forward_spec(fc@, pos as int),
{
    let i = skip_forward(fc, pos, Cls::NonSpace);
    skip_forward(fc, i, Cls::Space)
}

/// `B` — move to the start of the current or previous WORD.
pub fn vim_bigword_backward(fc: &Vec<char>, pos: usize) -> (r: usize)
    requires
        pos <= fc.len(),
    ensures
        r == bigword_backward_spec(fc@, pos as int),
        r <= pos,
{
    if pos == 0 {
        return 0;
    }
    let i = skip_backward(fc, pos - 1, Cls::Space);
    if is_space(fc[i]) {
        return 0;
    }
    skip_backward_prev(fc, i, Cls::NonSpace)
}

/// `E` — move to the end of the current or next WORD.
pub fn vim_bigword_end(fc: &Vec<char>, pos: usize) -> (r: usize)
    requires
        fc.len() > 0 ==> pos < usize::MAX,
    ensures
        r == bigword_end_spec(fc@, pos as int),
{
    let len = fc.len();
    if len == 0 {
        return 0;
    }
    if pos + 1 >= len {
        return len - 1;
    }
    let i = skip_forward(fc, pos + 1, Cls::Space);
    if i >= len {
        return len - 1;
    }
    let e = skip_forward(fc, i + 1, Cls::NonSpace);
    proof {
        lemma_skip_fwd_bounds(fc@, i + 1, Cls::NonSpace);
    }
    e - 1
}

/// `^` — index of the first non-blank, or 0.
pub fn first_non_blank(fc: &Vec<char>) -> (r: usize)
    ensures
        r == first_non_blank_spec(fc@),
{
    let j = skip_forward(fc, 0, Cls::Space);
    if j < fc.len() {
        j
    } else {
        0
    }
}

} // verus!
