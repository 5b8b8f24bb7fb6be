//! Word scanning and terminal escape-sequence handling on strings.

use vstd::prelude::*;
use crate::unicode::{chars_of, concat_range, graphemes, grapheme_clusters, push_char, views};

verus! {

/// The three kinds of characters the word scanner distinguishes.
#[derive(PartialEq, Eq, Structural, Clone, Copy, Debug)]
pub enum CharClass {
    Space,
    Separator,
    Word,
}

/// Characters that end a word without being spaces.
pub open spec fn is_separator_spec(c: char) -> bool {
    c == '/' || c == '\\' || c == '\'' || c == '"' || c == '&' || c == '(' || c == ')'
        || c == '*' || c == ',' || c == ';' || c == '<' || c == '=' || c == '>' || c == '?'
        || c == '@' || c == '[' || c == ']' || c == '^' || c == '{' || c == '|' || c == '}'
}

pub open spec fn char_class_spec(c: char) -> CharClass {
    if c == ' ' {
        CharClass::Space
    } else if is_separator_spec(c) {
        CharClass::Separator
    } else {
        CharClass::Word
    }
}

#[verifier::when_used_as_spec(char_class_spec)]
pub fn char_class(c: char) -> (r: CharClass)
    ensures
        r == char_class_spec(c),
{
    if c == ' ' {
        CharClass::Space
    } else if c == '/' || c == '\\' || c == '\'' || c == '"' || c == '&' || c == '(' || c == ')'
        || c == '*' || c == ',' || c == ';' || c == '<' || c == '=' || c == '>' || c == '?'
        || c == '@' || c == '[' || c == ']' || c == '^' || c == '{' || c == '|' || c == '}' {
        CharClass::Separator
    } else {
        CharClass::Word
    }
}

/// The word scanner's classes: a blank is a space; each of
/// `/ \ ' " & ( ) * , ; < = > ? @ [ ] ^ { | }` ends a word as a separator;
/// letters, digits, `_`, `-`, `.`, `:`, `#`, `!`, `$`, `%`, `+` and `~` belong to words.
pub proof fn lemma_char_classes(c: char)
    ensures
        c == ' ' ==> char_class(c) == CharClass::Space,
        (c == '/' || c == '\\' || c == '\'' || c == '"' || c == '&' || c == '(' || c == ')' || c == '*'
            || c == ',' || c == ';' || c == '<' || c == '=' || c == '>' || c == '?' || c == '@'
            || c == '[' || c == ']' || c == '^' || c == '{' || c == '|' || c == '}')
            ==> char_class(c) == CharClass::Separator,
        (('a' <= c && c <= 'z') || ('A' <= c && c <= 'Z') || ('0' <= c && c <= '9') || c == '_' || c == '-'
            || c == '.' || c == ':' || c == '#' || c == '!' || c == '$' || c == '%' || c == '+' || c == '~')
            ==> char_class(c) == CharClass::Word,
{
}

/// Length of the longest prefix of `s` made of characters of class `k`.
pub open spec fn leading_run(s: Seq<char>, k: CharClass) -> nat
    decreases s.len(),
{
    if s.len() > 0 && char_class_spec(s[0]) == k {
        1 + leading_run(s.drop_first(), k)
    } else {
        0
    }
}

/// Number of characters covered by one word step: leading spaces, then
/// either a run of separators or a run of word characters.
pub open spec fn next_word_spec(s: Seq<char>) -> nat {
    let spaces = leading_run(s, CharClass::Space);
    let rest = s.skip(spaces as int);
    if rest.len() > 0 && char_class_spec(rest[0]) == CharClass::Separator {
        spaces + leading_run(rest, CharClass::Separator)
    } else {
        spaces + leading_run(rest, CharClass::Word)
    }
}

pub proof fn lemma_leading_run_bounds(s: Seq<char>, k: CharClass)
    ensures
        leading_run(s, k) <= s.len(),
        forall|i: int| 0 <= i < leading_run(s, k) ==> char_class_spec(#[trigger] s[i]) == k,
        leading_run(s, k) < s.len() ==> char_class_spec(s[leading_run(s, k) as int]) != k,
    decreases s.len(),
{
    if s.len() > 0 && char_class_spec(s[0]) == k {
        lemma_leading_run_bounds(s.drop_first(), k);
        assert forall|i: int| 0 <= i < leading_run(s, k) implies char_class_spec(#[trigger] s[i]) == k by {
            if i > 0 {
                assert(s[i] == s.drop_first()[i - 1]);
            }
        }
    }
}

/// A run of class `k` is fully characterised by its bounds.
pub proof fn lemma_leading_run_unique(s: Seq<char>, k: CharClass, n: nat)
    requires
        n <= s.len(),
        forall|i: int| 0 <= i < n ==> char_class_spec(#[trigger] s[i]) == k,
        n < s.len() ==> char_class_spec(s[n as int]) != k,
    ensures
        leading_run(s, k) == n,
    decreases s.len(),
{
    if n > 0 {
        assert(char_class_spec(s[0]) == k);
        assert forall|i: int| 0 <= i < n - 1 implies char_class_spec(#[trigger] s.drop_first()[i]) == k by {
            assert(s.drop_first()[i] == s[i + 1]);
        }
        if n < s.len() {
            assert(s.drop_first()[n - 1] == s[n as int]);
        }
        lemma_leading_run_unique(s.drop_first(), k, (n - 1) as nat);
    } else {
        if s.len() > 0 {
            assert(char_class_spec(s[0]) != k);
        }
    }
}

/// Counts the characters of one word step at the start of `chars`.
pub fn next_word(chars: &Vec<char>) -> (count: usize)
    ensures
        count == next_word_spec(chars@),
        count <= chars.len(),
{
    let n = chars.len();
    let mut spaces: usize = 0;
    while spaces < n && char_class(chars[spaces]) == CharClass::Space
        invariant
            spaces <= n == chars.len(),
            forall|i: int| 0 <= i < spaces ==> char_class_spec(#[trigger] chars@[i]) == CharClass::Space,
        decreases n - spaces,
    {
        spaces += 1;
    }
    proof {
        lemma_leading_run_unique(chars@, CharClass::Space, spaces as nat);
    }
    let ghost rest = chars@.skip(spaces as int);
    let k = if spaces < n && char_class(chars[spaces]) == CharClass::Separator {
        CharClass::Separator
    } else {
        CharClass::Word
    };
    let mut count = spaces;
    while count < n && char_class(chars[count]) == k
        invariant
            spaces <= count <= n == chars.len(),
            rest == chars@.skip(spaces as int),
            forall|i: int| spaces <= i < count ==> char_class_spec(#[trigger] chars@[i]) == k,
        decreases n - count,
    {
        count += 1;
    }
    proof {
        assert forall|i: int| 0 <= i < count - spaces implies char_class_spec(#[trigger] rest[i]) == k by {
            assert(rest[i] == chars@[spaces + i]);
        }
        if count < n {
            assert(rest[count - spaces] == chars@[count as int]);
        }
        lemma_leading_run_unique(rest, k, (count - spaces) as nat);
    }
    count
}


/// CSI parameter bytes.
pub open spec fn is_csi_param(c: char) -> bool {
    '\x30' <= c && c <= '\x3f'
}

/// CSI intermediate bytes.
pub open spec fn is_csi_intermediate(c: char) -> bool {
    '\x20' <= c && c <= '\x2f'
}

/// CSI final bytes.
pub open spec fn is_csi_final(c: char) -> bool {
    '\x40' <= c && c <= '\x7e'
}

/// Whether `s` holds no escape character.
pub open spec fn is_clean(s: Seq<char>) -> bool {
    !s.contains('\x1b')
}

pub fn is_clean_str(string: &str) -> (r: bool)
    ensures
        r == is_clean(string@),
{
    let cs = chars_of(string);
    for i in 0..cs.len()
        invariant
            cs@ == string@,
            forall|j: int| 0 <= j < i ==> cs@[j] != '\x1b',
    {
        if cs[i] == '\x1b' {
            return false;
        }
    }
    true
}

/// `s` with terminal escape sequences removed: an escape followed by `[`
/// starts a control sequence whose parameter and intermediate bytes, and
/// any escape inside it, are dropped up to its final byte (other
/// characters inside are kept); an escape followed by anything else drops
/// the escape, and the character after it too when that is an escape.
pub open spec fn clean_spec(s: Seq<char>) -> Seq<char>
    decreases s.len(), 1int,
{
    if s.len() == 0 {
        Seq::empty()
    } else if s[0] == '\x1b' {
        if s.len() == 1 {
            Seq::empty()
        } else if s[1] == '[' {
            csi_spec(s.skip(2))
        } else if s[1] == '\x1b' {
            clean_spec(s.skip(2))
        } else {
            seq![s[1]] + clean_spec(s.skip(2))
        }
    } else {
        seq![s[0]] + clean_spec(s.drop_first())
    }
}

/// What remains of `s` when it starts inside a control sequence.
pub open spec fn csi_spec(s: Seq<char>) -> Seq<char>
    decreases s.len(), 0int,
{
    if s.len() == 0 {
        Seq::empty()
    } else if is_csi_param(s[0]) || is_csi_intermediate(s[0]) || s[0] == '\x1b' {
        csi_spec(s.drop_first())
    } else if is_csi_final(s[0]) {
        clean_spec(s.drop_first())
    } else {
        seq![s[0]] + csi_spec(s.drop_first())
    }
}

/// The characters of `s` whose flag in `keep` is set, in order.
pub open spec fn masked(s: Seq<char>, keep: Seq<bool>) -> Seq<char>
    decreases s.len(),
{
    if s.len() == 0 || keep.len() == 0 {
        Seq::empty()
    } else {
        (if keep[0] {
            seq![s[0]]
        } else {
            Seq::empty()
        }) + masked(s.drop_first(), keep.drop_first())
    }
}

/// `a` is `b` with some characters dropped.
pub open spec fn drops_from(a: Seq<char>, b: Seq<char>) -> bool {
    exists|keep: Seq<bool>| keep.len() == b.len() && #[trigger] masked(b, keep) == a
}

/// Which characters of `s` cleaning keeps.
pub open spec fn clean_mask(s: Seq<char>) -> Seq<bool>
    decreases s.len(), 1int,
{
    if s.len() == 0 {
        Seq::empty()
    } else if s[0] == '\x1b' {
        if s.len() == 1 {
            seq![false]
        } else if s[1] == '[' {
            seq![false, false] + csi_mask(s.skip(2))
        } else if s[1] == '\x1b' {
            seq![false, false] + clean_mask(s.skip(2))
        } else {
            seq![false, true] + clean_mask(s.skip(2))
        }
    } else {
        seq![true] + clean_mask(s.drop_first())
    }
}

/// Which characters of `s` cleaning keeps, inside a control sequence.
pub open spec fn csi_mask(s: Seq<char>) -> Seq<bool>
    decreases s.len(), 0int,
{
    if s.len() == 0 {
        Seq::empty()
    } else if is_csi_param(s[0]) || is_csi_intermediate(s[0]) || s[0] == '\x1b' {
        seq![false] + csi_mask(s.drop_first())
    } else if is_csi_final(s[0]) {
        seq![false] + clean_mask(s.drop_first())
    } else {
        seq![true] + csi_mask(s.drop_first())
    }
}

proof fn lemma_masked_cons(s: Seq<char>, keep: Seq<bool>)
    requires
        s.len() > 0,
        keep.len() > 0,
    ensures
        masked(s, keep) == (if keep[0] {
            seq![s[0]]
        } else {
            Seq::<char>::empty()
        }) + masked(s.drop_first(), keep.drop_first()),
{
}

/// Cleaning drops characters and keeps the others in order, and what it
/// keeps holds no escape character.
proof fn lemma_clean_mask(s: Seq<char>, in_csi: bool)
    ensures
        in_csi ==> csi_mask(s).len() == s.len() && masked(s, csi_mask(s)) == csi_spec(s) && is_clean(csi_spec(s)),
        !in_csi ==> clean_mask(s).len() == s.len() && masked(s, clean_mask(s)) == clean_spec(s) && is_clean(clean_spec(s)),
    decreases s.len(), if in_csi { 0int } else { 1int },
{
    if s.len() == 0 {
        if in_csi {
            assert(!csi_spec(s).contains('\x1b'));
        } else {
            assert(!clean_spec(s).contains('\x1b'));
        }
    } else if in_csi {
        let t = s.drop_first();
        let m = csi_mask(s);
        if is_csi_param(s[0]) || is_csi_intermediate(s[0]) || s[0] == '\x1b' {
            lemma_clean_mask(t, true);
            assert(m.drop_first() =~= csi_mask(t));
            lemma_masked_cons(s, m);
            assert(masked(s, m) =~= masked(t, csi_mask(t)));
        } else if is_csi_final(s[0]) {
            lemma_clean_mask(t, false);
            assert(m.drop_first() =~= clean_mask(t));
            lemma_masked_cons(s, m);
            assert(masked(s, m) =~= masked(t, clean_mask(t)));
        } else {
            lemma_clean_mask(t, true);
            assert(m.drop_first() =~= csi_mask(t));
            lemma_masked_cons(s, m);
            assert(masked(s, m) =~= seq![s[0]] + masked(t, csi_mask(t)));
            lemma_clean_cons(s[0], csi_spec(t));
        }
    } else {
        let m = clean_mask(s);
        if s[0] == '\x1b' {
            if s.len() == 1 {
                lemma_masked_cons(s, m);
                assert(masked(s, m) =~= Seq::<char>::empty());
                assert(!clean_spec(s).contains('\x1b'));
            } else {
                let t = s.skip(2);
                let s1 = s.drop_first();
                let m1 = m.drop_first();
                assert(s1.drop_first() =~= t);
                lemma_masked_cons(s, m);
                lemma_masked_cons(s1, m1);
                if s[1] == '[' {
                    lemma_clean_mask(t, true);
                    assert(m1.drop_first() =~= csi_mask(t));
                    assert(masked(s, m) =~= masked(t, csi_mask(t)));
                } else if s[1] == '\x1b' {
                    lemma_clean_mask(t, false);
                    assert(m1.drop_first() =~= clean_mask(t));
                    assert(masked(s, m) =~= masked(t, clean_mask(t)));
                } else {
                    lemma_clean_mask(t, false);
                    assert(m1.drop_first() =~= clean_mask(t));
                    assert(masked(s, m) =~= seq![s[1]] + masked(t, clean_mask(t)));
                    lemma_clean_cons(s[1], clean_spec(t));
                }
            }
        } else {
            let t = s.drop_first();
            lemma_clean_mask(t, false);
            assert(m.drop_first() =~= clean_mask(t));
            lemma_masked_cons(s, m);
            assert(masked(s, m) =~= seq![s[0]] + masked(t, clean_mask(t)));
            lemma_clean_cons(s[0], clean_spec(t));
        }
    }
}

proof fn lemma_clean_cons(c: char, rest: Seq<char>)
    requires
        c != '\x1b',
        is_clean(rest),
    ensures
        is_clean(seq![c] + rest),
{
    if (seq![c] + rest).contains('\x1b') {
        let j = choose|j: int| 0 <= j < (seq![c] + rest).len() && (seq![c] + rest)[j] == '\x1b';
        if j > 0 {
            assert(rest[j - 1] == '\x1b');
            assert(rest.contains('\x1b'));
        }
    }
}

/// Cleaning removes every escape character, and only drops characters:
/// what is left is the input with some characters taken out, in order.
pub proof fn lemma_clean_removes_escapes(s: Seq<char>)
    ensures
        is_clean(clean_spec(s)),
        drops_from(clean_spec(s), s),
{
    lemma_clean_mask(s, false);
    let keep = clean_mask(s);
    assert(keep.len() == s.len() && masked(s, keep) == clean_spec(s));
}

/// Remove all terminal specific char sequences.
pub fn clean_str(string: &str) -> (r: String)
    ensures
        r@ == clean_spec(string@),
        is_clean(r@),
        drops_from(r@, string@),
        is_clean(string@) ==> r@ == string@,
{
    proof {
        lemma_clean_removes_escapes(string@);
        if is_clean(string@) {
            lemma_clean_of_clean(string@);
        }
    }
    let cs = chars_of(string);
    let n = cs.len();
    let mut out = String::new();
    let mut i: usize = 0;
    let mut in_csi = false;
    assert(cs@.skip(0) =~= cs@);
    while i < n
        invariant
            n == cs.len(),
            cs@ == string@,
            i <= n,
            out@ + (if in_csi {
                csi_spec(cs@.skip(i as int))
            } else {
                clean_spec(cs@.skip(i as int))
            }) == clean_spec(string@),
        decreases n - i,
    {
        let ghost rest = cs@.skip(i as int);
        let c = cs[i];
        assert(rest[0] == c);
        assert(rest.drop_first() =~= cs@.skip(i + 1));
        if in_csi {
            if ('\x30' <= c && c <= '\x3f') || ('\x20' <= c && c <= '\x2f') || c == '\x1b' {
                i += 1;
            } else if '\x40' <= c && c <= '\x7e' {
                in_csi = false;
                i += 1;
            } else {
                push_char(&mut out, c);
                assert(seq![c] + csi_spec(cs@.skip(i + 1)) == csi_spec(rest));
                i += 1;
            }
        } else if c == '\x1b' {
            if i + 1 < n {
                assert(rest[1] == cs@[i + 1]);
                assert(rest.skip(2) =~= cs@.skip(i + 2));
                if cs[i + 1] == '[' {
                    in_csi = true;
                } else if cs[i + 1] != '\x1b' {
                    push_char(&mut out, cs[i + 1]);
                }
                i += 2;
            } else {
                i += 1;
                assert(cs@.skip(i as int).len() == 0);
            }
        } else {
            push_char(&mut out, c);
            i += 1;
        }
        assert(out@ + (if in_csi {
            csi_spec(cs@.skip(i as int))
        } else {
            clean_spec(cs@.skip(i as int))
        }) =~= clean_spec(string@));
    }
    assert(cs@.skip(n as int).len() == 0);
    assert(out@ =~= clean_spec(string@));
    out
}

/// Remove all terminal specific char sequences (same as `clean_str`).
pub fn clean(string: &str) -> (r: String)
    ensures
        r@ == clean_spec(string@),
        is_clean(r@),
        drops_from(r@, string@),
        is_clean(string@) ==> r@ == string@,
{
    clean_str(string)
}

/// Cleaning a string without escape characters gives it back unchanged.
pub proof fn lemma_clean_of_clean(s: Seq<char>)
    requires
        is_clean(s),
    ensures
        clean_spec(s) == s,
    decreases s.len(),
{
    if s.len() > 0 {
        assert(s[0] != '\x1b') by {
            if s[0] == '\x1b' {
                assert(s.contains('\x1b'));
            }
        }
        assert(!s.drop_first().contains('\x1b')) by {
            if s.drop_first().contains('\x1b') {
                let j = choose|j: int| 0 <= j < s.drop_first().len() && s.drop_first()[j] == '\x1b';
                assert(s[j + 1] == '\x1b');
            }
        }
        lemma_clean_of_clean(s.drop_first());
        assert(seq![s[0]] + s.drop_first() =~= s);
    }
}

/// Inside a control sequence starting at cluster `k`: the index after the
/// sequence and whether it ended on a visible cluster.
pub open spec fn csi_scan(g: Seq<Seq<char>>, k: int) -> (int, bool)
    decreases g.len() - k,
{
    if k < 0 || k >= g.len() {
        (g.len() as int, false)
    } else if g[k].len() == 1 {
        let c = g[k][0];
        if is_csi_param(c) || is_csi_intermediate(c) {
            csi_scan(g, k + 1)
        } else {
            (k + 1, false)
        }
    } else {
        (k + 1, true)
    }
}

/// One step over clusters from `i`: the index after it and whether it
/// counted a visible cluster. An escape cluster consumes the cluster after
/// it, and a following `[` cluster a whole control sequence.
pub open spec fn visible_step(g: Seq<Seq<char>>, i: int) -> (int, bool) {
    if g[i] == seq!['\x1b'] {
        if i + 1 >= g.len() {
            (i + 1, false)
        } else if g[i + 1] != seq!['['] {
            (i + 2, false)
        } else {
            csi_scan(g, i + 2)
        }
    } else {
        (i + 1, true)
    }
}

pub proof fn lemma_csi_scan_bounds(g: Seq<Seq<char>>, k: int)
    requires
        0 <= k,
    ensures
        k < g.len() ==> k < csi_scan(g, k).0 <= g.len(),
        k >= g.len() ==> csi_scan(g, k).0 == g.len(),
    decreases g.len() - k,
{
    if k < g.len() && g[k].len() == 1 {
        let c = g[k][0];
        if is_csi_param(c) || is_csi_intermediate(c) {
            lemma_csi_scan_bounds(g, k + 1);
        }
    }
}

pub proof fn lemma_visible_step_bounds(g: Seq<Seq<char>>, i: int)
    requires
        0 <= i < g.len(),
    ensures
        i < visible_step(g, i).0 <= g.len(),
{
    if g[i] == seq!['\x1b'] && i + 1 < g.len() && g[i + 1] == seq!['['] {
        lemma_csi_scan_bounds(g, i + 2);
    }
}

/// Number of visible clusters from cluster `i` on.
pub open spec fn visible_count(g: Seq<Seq<char>>, i: int) -> int
    decreases g.len() - i,
{
    if i < 0 || i >= g.len() {
        0
    } else {
        let (j, dec) = visible_step(g, i);
        if j <= i || j > g.len() {
            0
        } else {
            (if dec {
                1int
            } else {
                0int
            }) + visible_count(g, j)
        }
    }
}

/// The kept text of a truncation from cluster `i` with `remaining` visible
/// clusters left to keep, then `append` when the limit is reached.
pub open spec fn truncate_from(g: Seq<Seq<char>>, i: int, remaining: int, append: Seq<char>) -> Seq<char>
    decreases g.len() - i,
{
    if i < 0 || i >= g.len() {
        Seq::empty()
    } else {
        let (j, dec) = visible_step(g, i);
        let rem = if dec {
            remaining - 1
        } else {
            remaining
        };
        if j <= i || j > g.len() {
            Seq::empty()
        } else if rem == 0 {
            g.subrange(i, j).flatten() + append
        } else {
            g.subrange(i, j).flatten() + truncate_from(g, j, rem, append)
        }
    }
}

fn csi_scan_exec(g: &Vec<String>, start: usize) -> (r: (usize, bool))
    requires
        forall|j: int| 0 <= j < g.len() ==> (#[trigger] views(g@)[j]).len() > 0,
    ensures
        (r.0 as int, r.1) == csi_scan(views(g@), start as int),
{
    let n = g.len();
    let mut k = start;
    while k < n
        invariant
            n == g.len(),
            start <= k,
            csi_scan(views(g@), k as int) == csi_scan(views(g@), start as int),
        decreases n - k,
    {
        let gk = g[k].as_str();
        let ghost v = views(g@);
        assert(v[k as int] == gk@);
        let len = gk.unicode_len();
        if len == 1 {
            let c = gk.get_char(0);
            assert(v[k as int][0] == c);
            if ('\x30' <= c && c <= '\x3f') || ('\x20' <= c && c <= '\x2f') {
                k += 1;
            } else {
                assert(csi_scan(v, k as int) == (k + 1, false));
                return (k + 1, false);
            }
        } else {
            assert(csi_scan(v, k as int) == (k + 1, true));
            return (k + 1, true);
        }
    }
    (n, false)
}


fn is_single(g: &String, c: char) -> (r: bool)
    ensures
        r == (g@ == seq![c]),
{
    let s = g.as_str();
    if s.unicode_len() == 1 {
        let d = s.get_char(0);
        if d == c {
            assert(s@ =~= seq![c]);
            true
        } else {
            false
        }
    } else {
        false
    }
}

fn visible_step_exec(g: &Vec<String>, i: usize) -> (r: (usize, bool))
    requires
        i < g.len(),
        forall|j: int| 0 <= j < g.len() ==> (#[trigger] views(g@)[j]).len() > 0,
    ensures
        (r.0 as int, r.1) == visible_step(views(g@), i as int),
{
    let ghost v = views(g@);
    assert(v[i as int] == g@[i as int]@);
    if is_single(&g[i], '\x1b') {
        if i + 1 >= g.len() {
            (i + 1, false)
        } else {
            assert(v[i + 1] == g@[i + 1]@);
            if !is_single(&g[i + 1], '[') {
                (i + 2, false)
            } else {
                csi_scan_exec(g, i + 2)
            }
        }
    } else {
        (i + 1, true)
    }
}

/// Count the visible grapheme clusters of `string`, ignoring terminal
/// escape sequences like `\x1b[...`.
pub fn term_string_visible_len(string: &str) -> (len: usize)
    ensures
        len == visible_count(grapheme_clusters(string@), 0),
{
    let g = graphemes(string);
    let ghost v = views(g@);
    let n = g.len();
    let mut len: usize = 0;
    let mut i: usize = 0;
    while i < n
        invariant
            n == g.len(),
            v == views(g@),
            v == grapheme_clusters(string@),
            forall|j: int| 0 <= j < g.len() ==> (#[trigger] views(g@)[j]).len() > 0,
            i <= n,
            len <= i,
            len + visible_count(v, i as int) == visible_count(v, 0),
        decreases n - i,
    {
        proof {
            lemma_visible_step_bounds(v, i as int);
        }
        let (j, dec) = visible_step_exec(&g, i);
        if dec {
            len += 1;
        }
        i = j;
    }
    len
}

/// Whether truncating to `remaining` visible clusters can start: with
/// nothing left to keep, the first cluster must not be a visible one.
pub open spec fn truncate_ok(g: Seq<Seq<char>>, remaining: int) -> bool {
    remaining == 0 && g.len() > 0 ==> !visible_step(g, 0).1
}

/// Truncate `string` to `max` visible clusters, keeping escape sequences,
/// and append the (already clean) `append` when the limit is reached; the
/// clusters of `append` count against `max`.
pub fn term_string_visible_truncate(string: &str, max: usize, append: Option<&str>) -> (r: String)
    requires
        append matches Some(a) ==> grapheme_clusters(a@).len() <= max,
        truncate_ok(
            grapheme_clusters(string@),
            max - match append {
                Some(a) => grapheme_clusters(a@).len() as int,
                None => 0int,
            },
        ),
    ensures
        r@ == truncate_from(
            grapheme_clusters(string@),
            0,
            max - match append {
                Some(a) => grapheme_clusters(a@).len() as int,
                None => 0int,
            },
            match append {
                Some(a) => a@,
                None => Seq::<char>::empty(),
            },
        ),
{
    let g = graphemes(string);
    let ghost v = views(g@);
    let n = g.len();
    let mut remaining = max;
    match append {
        Some(a) => {
            let ag = graphemes(a);
            assert(views(ag@).len() == ag@.len());
            remaining = remaining - ag.len();
        },
        None => {},
    }
    let ghost rem0 = remaining as int;
    assert(rem0 == max - match append {
        Some(a) => grapheme_clusters(a@).len() as int,
        None => 0int,
    });
    let ghost app = match append {
        Some(a) => a@,
        None => Seq::<char>::empty(),
    };
    let mut output = String::new();
    let mut i: usize = 0;
    while i < n
        invariant
            n == g.len(),
            v == views(g@),
            v == grapheme_clusters(string@),
            forall|j: int| 0 <= j < g.len() ==> (#[trigger] views(g@)[j]).len() > 0,
            i <= n,
            app == match append {
                Some(a) => a@,
                None => Seq::<char>::empty(),
            },
            truncate_ok(v, rem0),
            rem0 == max - match append {
                Some(a) => grapheme_clusters(a@).len() as int,
                None => 0int,
            },
            i == 0 ==> remaining == rem0,
            i > 0 ==> remaining > 0,
            output@ + truncate_from(v, i as int, remaining as int, app) == truncate_from(v, 0, rem0, app),
        decreases n - i,
    {
        proof {
            lemma_visible_step_bounds(v, i as int);
        }
        let (j, dec) = visible_step_exec(&g, i);
        let piece = concat_range(&g, i, j);
        output.append(piece.as_str());
        if dec {
            remaining = remaining - 1;
        }
        if remaining == 0 {
            match append {
                Some(a) => output.append(a),
                None => {},
            }
            assert(output@ =~= truncate_from(v, 0, rem0, app));
            return output;
        }
        assert(output@ + truncate_from(v, j as int, remaining as int, app) =~= truncate_from(v, 0, rem0, app));
        i = j;
    }
    assert(output@ =~= truncate_from(v, 0, rem0, app));
    output
}

/// `term_string_visible_truncate` where it can run: `None` when the
/// appended text alone is longer than `max`, or when nothing may be kept
/// and the string starts with a visible cluster.
pub fn checked_visible_truncate(string: &str, max: usize, append: Option<&str>) -> (r: Option<String>)
    ensures
        ({
            let ok = (append matches Some(a) ==> grapheme_clusters(a@).len() <= max) && truncate_ok(
                grapheme_clusters(string@),
                max - match append {
                    Some(a) => grapheme_clusters(a@).len() as int,
                    None => 0int,
                },
            );
            &&& !ok ==> r is None
            &&& ok ==> r is Some && r->0@ == truncate_from(
                grapheme_clusters(string@),
                0,
                max - match append {
                    Some(a) => grapheme_clusters(a@).len() as int,
                    None => 0int,
                },
                match append {
                    Some(a) => a@,
                    None => Seq::<char>::empty(),
                },
            )
        }),
{
    let mut remaining = max;
    match append {
        Some(a) => {
            let ag = graphemes(a);
            assert(views(ag@).len() == ag@.len());
            if ag.len() > max {
                return None;
            }
            remaining = max - ag.len();
        },
        None => {},
    }
    let g = graphemes(string);
    assert(views(g@).len() == g@.len());
    if remaining == 0 && g.len() > 0 {
        let (_, dec) = visible_step_exec(&g, 0);
        if dec {
            return None;
        }
    }
    Some(term_string_visible_truncate(string, max, append))
}

} // verus!
