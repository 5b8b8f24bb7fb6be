//! Calls into the Unicode segmentation and display-width crates, and the
//! Unicode-aware classification of `char` from std.

use unicode_segmentation::UnicodeSegmentation;
use vstd::prelude::*;

verus! {

/// Views of a sequence of owned strings.
pub open spec fn views(v: Seq<String>) -> Seq<Seq<char>> {
    v.map_values(|g: String| g@)
}

/// The extended grapheme clusters of a character sequence, as computed by
/// `unicode_segmentation`.
pub uninterp spec fn grapheme_clusters(s: Seq<char>) -> Seq<Seq<char>>;

/// The word-bound segments (UAX#29) of a character sequence, as computed
/// by `unicode_segmentation`.
pub uninterp spec fn word_bound_segments(s: Seq<char>) -> Seq<Seq<char>>;

/// The monospace display width of a character sequence, as computed by
/// `unicode_display_width`.
pub uninterp spec fn text_display_width(s: Seq<char>) -> u64;

/// Whether std classifies the char as alphabetic or numeric.
pub uninterp spec fn char_is_alphanumeric(c: char) -> bool;

/// A segmentation of `s`: non-empty pieces that concatenate back to `s`.
pub open spec fn is_segmentation(pieces: Seq<Seq<char>>, s: Seq<char>) -> bool {
    &&& pieces.flatten() == s
    &&& forall|i: int| 0 <= i < pieces.len() ==> (#[trigger] pieces[i]).len() > 0
}

/// Whether `s` is ASCII text with no carriage return directly followed by
/// a line feed.
pub open spec fn plain_ascii(s: Seq<char>) -> bool {
    &&& forall|i: int| 0 <= i < s.len() ==> (#[trigger] s[i] as u32) < 0x80
    &&& forall|i: int| 0 <= i < s.len() - 1 ==> !(#[trigger] s[i] == '\r' && s[i + 1] == '\n')
}

/// Calls `UnicodeSegmentation::graphemes(s, true)` and collects the clusters.
/// The result is named `grapheme_clusters(s@)`; the crate's iterator yields
/// consecutive non-empty slices from the start to the end of `s`, so the
/// clusters concatenate back to `s`. In ASCII text every character is a
/// cluster of its own, except a carriage return followed by a line feed
/// (the crate gives ASCII characters the categories CR, LF, Control or
/// Any, and breaks between any two of them but CR LF). Which boundaries
/// UAX#29 picks elsewhere is not stated.
#[verifier::external_body]
pub(crate) fn graphemes(s: &str) -> (gs: Vec<String>)
    ensures
        views(gs@) == grapheme_clusters(s@),
        is_segmentation(views(gs@), s@),
        plain_ascii(s@) ==> views(gs@) == s@.map_values(|c: char| seq![c]),
{
    s.graphemes(true).map(|g| g.to_string()).collect()
}

/// Calls `UnicodeSegmentation::split_word_bounds(s)` and collects the
/// segments. The result is named `word_bound_segments(s@)`; as for
/// graphemes, the segments are consecutive non-empty slices covering `s`.
#[verifier::external_body]
pub(crate) fn split_word_bounds(s: &str) -> (ws: Vec<String>)
    ensures
        views(ws@) == word_bound_segments(s@),
        is_segmentation(views(ws@), s@),
{
    s.split_word_bounds().map(|w| w.to_string()).collect()
}

/// Calls `unicode_display_width::width(s)`: the sum, over the grapheme
/// clusters of `s`, of 1 or 2 columns. Stated: the empty string has width 0,
/// a single printable ASCII character has width 1, and the width is at most
/// two columns per character. Which clusters are double width is not stated.
#[verifier::external_body]
pub(crate) fn display_width(s: &str) -> (w: u64)
    ensures
        w == text_display_width(s@),
        s@.len() == 0 ==> w == 0,
        s@.len() == 1 && 0x20 <= (s@[0] as u32) <= 0x7e ==> w == 1,
        w <= 2 * s@.len(),
{
    unicode_display_width::width(s)
}

/// Calls `char::is_alphanumeric`. Stated: ASCII letters and digits are
/// alphanumeric and no other ASCII character is. Which non-ASCII chars are
/// is not stated.
#[verifier::external_body]
pub(crate) fn is_alphanumeric(c: char) -> (r: bool)
    ensures
        r == char_is_alphanumeric(c),
        (c as u32) < 0x80 ==> (r <==> (('a' <= c && c <= 'z') || ('A' <= c && c <= 'Z') || ('0'
            <= c && c <= '9'))),
{
    c.is_alphanumeric()
}

/// The lowercase of a character sequence, as computed by `str::to_lowercase`.
pub uninterp spec fn lowercased(s: Seq<char>) -> Seq<char>;

/// The ASCII lowercase of a character: `A`-`Z` become `a`-`z`.
pub open spec fn ascii_lower(c: char) -> char {
    if 'A' <= c && c <= 'Z' {
        ((c as u32) + 32) as char
    } else {
        c
    }
}

/// Calls `str::to_lowercase`. The result is named `lowercased(s@)`. Stated:
/// a string of ASCII characters is lowered character by character, as
/// Unicode maps the ASCII capitals to the ASCII small letters and leaves
/// the other ASCII characters alone. Which non-ASCII characters change is
/// not stated.
#[verifier::external_body]
pub(crate) fn to_lowercase(s: &str) -> (r: String)
    ensures
        r@ == lowercased(s@),
        (forall|i: int| 0 <= i < s@.len() ==> (s@[i] as u32) < 0x80) ==> r@ == s@.map_values(
            |c: char| ascii_lower(c),
        ),
{
    s.to_lowercase()
}

/// Whether both strings hold the same characters.
pub fn str_eq(a: &str, b: &str) -> (r: bool)
    ensures
        r == (a@ == b@),
{
    let n = a.unicode_len();
    if n != b.unicode_len() {
        return false;
    }
    for i in 0..n
        invariant
            n == a@.len(),
            n == b@.len(),
            forall|k: int| 0 <= k < i ==> a@[k] == b@[k],
    {
        if a.get_char(i) != b.get_char(i) {
            return false;
        }
    }
    assert(a@ =~= b@);
    true
}

/// Calls `String::push`.
#[verifier::external_body]
pub(crate) fn push_char(s: &mut String, c: char)
    ensures
        final(s)@ == old(s)@.push(c),
{
    s.push(c)
}

/// The characters of `s`, in order.
pub fn chars_of(s: &str) -> (cs: Vec<char>)
    ensures
        cs@ == s@,
{
    let n = s.unicode_len();
    let mut cs: Vec<char> = Vec::new();
    for i in 0..n
        invariant
            n == s@.len(),
            cs@ == s@.take(i as int),
    {
        cs.push(s.get_char(i));
        assert(cs@ =~= s@.take(i + 1));
    }
    assert(s@.take(n as int) =~= s@);
    cs
}

/// A string holding exactly the characters `cs`.
pub fn string_from_chars(cs: &Vec<char>) -> (s: String)
    ensures
        s@ == cs@,
{
    let mut s = String::new();
    for i in 0..cs.len()
        invariant
            s@ == cs@.take(i as int),
    {
        push_char(&mut s, cs[i]);
        assert(s@ =~= cs@.take(i + 1));
    }
    assert(cs@.take(cs.len() as int) =~= cs@);
    s
}

/// A copy of `s`.
pub fn copy_str(s: &str) -> (r: String)
    ensures
        r@ == s@,
{
    s.to_owned()
}

/// The concatenation of the pieces `lo..hi` of `pieces`.
pub fn concat_range(pieces: &Vec<String>, lo: usize, hi: usize) -> (r: String)
    requires
        lo <= hi <= pieces.len(),
    ensures
        r@ == views(pieces@).subrange(lo as int, hi as int).flatten(),
{
    let mut r = String::new();
    let mut i = lo;
    while i < hi
        invariant
            lo <= i <= hi <= pieces.len(),
            r@ == views(pieces@).subrange(lo as int, i as int).flatten(),
        decreases hi - i,
    {
        proof {
            let v = views(pieces@);
            v.subrange(lo as int, i as int).lemma_flatten_push(v[i as int]);
            assert(v.subrange(lo as int, i as int).push(v[i as int]) =~= v.subrange(
                lo as int,
                i + 1,
            ));
        }
        r.append(pieces[i].as_str());
        i += 1;
    }
    r
}

} // verus!
