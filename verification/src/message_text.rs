//! Layout of a message's text under its header: the body's lines, with
//! every line after the first lined up under the first one, or each line
//! given the header again.

use vstd::prelude::*;
use crate::unicode::{push_char, views};
use crate::wrap::{split_lines, text_lines};

verus! {

/// `n` spaces.
pub open spec fn spaces(n: nat) -> Seq<char> {
    Seq::new(n, |i: int| ' ')
}

/// `lines` joined by newlines, each line after the first preceded by `pad`.
pub open spec fn hanging(lines: Seq<Seq<char>>, pad: Seq<char>) -> Seq<char>
    decreases lines.len(),
{
    if lines.len() == 0 {
        Seq::empty()
    } else if lines.len() == 1 {
        lines[0]
    } else {
        hanging(lines.drop_last(), pad) + seq!['\n'] + pad + lines.last()
    }
}

/// Each of `lines` preceded by `prefix` and followed by a newline.
pub open spec fn prefixed(lines: Seq<Seq<char>>, prefix: Seq<char>) -> Seq<char>
    decreases lines.len(),
{
    if lines.len() == 0 {
        Seq::empty()
    } else {
        prefixed(lines.drop_last(), prefix) + prefix + lines.last() + seq!['\n']
    }
}

/// The body of a message shown after a header `padding` columns wide:
/// its lines joined by newlines, the lines after the first indented by
/// `padding` spaces.
pub fn hanging_indent(body: &str, padding: usize) -> (r: String)
    ensures
        r@ == hanging(text_lines(body@), spaces(padding as nat)),
{
    let lines = split_lines(body);
    let ghost v = views(lines@);
    let mut pad = String::new();
    let mut k: usize = 0;
    while k < padding
        invariant
            0 <= k <= padding,
            pad@ == spaces(k as nat),
        decreases padding - k,
    {
        push_char(&mut pad, ' ');
        assert(pad@ =~= spaces((k + 1) as nat));
        k = k + 1;
    }
    let mut r = String::new();
    let mut i: usize = 0;
    while i < lines.len()
        invariant
            0 <= i <= lines.len(),
            v == views(lines@),
            pad@ == spaces(padding as nat),
            r@ == hanging(v.take(i as int), pad@),
        decreases lines.len() - i,
    {
        assert(v.take(i + 1).drop_last() =~= v.take(i as int));
        assert(v.take(i + 1).last() == lines@[i as int]@);
        if i > 0 {
            push_char(&mut r, '\n');
            r.append(pad.as_str());
        }
        r.append(lines[i].as_str());
        proof {
            if i == 0 {
                assert(v.take(1)[0] == lines@[0]@);
            }
        }
        assert(r@ =~= hanging(v.take(i + 1), pad@));
        i = i + 1;
    }
    assert(v.take(lines.len() as int) =~= v);
    r
}

/// Each line of `body` preceded by `prefix` and ended by a newline.
pub fn prefix_lines(prefix: &str, body: &str) -> (r: String)
    ensures
        r@ == prefixed(text_lines(body@), prefix@),
{
    let lines = split_lines(body);
    let ghost v = views(lines@);
    let mut r = String::new();
    let mut i: usize = 0;
    while i < lines.len()
        invariant
            0 <= i <= lines.len(),
            v == views(lines@),
            r@ == prefixed(v.take(i as int), prefix@),
        decreases lines.len() - i,
    {
        assert(v.take(i + 1).drop_last() =~= v.take(i as int));
        assert(v.take(i + 1).last() == lines@[i as int]@);
        r.append(prefix);
        r.append(lines[i].as_str());
        push_char(&mut r, '\n');
        assert(r@ =~= prefixed(v.take(i + 1), prefix@));
        i = i + 1;
    }
    assert(v.take(lines.len() as int) =~= v);
    r
}

} // verus!
