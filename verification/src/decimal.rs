//! Numbers written in decimal.

use vstd::prelude::*;
use crate::unicode::push_char;

verus! {

pub open spec fn digit(d: nat) -> char {
    (d + 48) as char
}

/// The decimal digits of `n`, most significant first, without leading
/// zeros (`0` is written `0`).
pub open spec fn decimal(n: nat) -> Seq<char>
    decreases n,
{
    if n < 10 {
        seq![digit(n)]
    } else {
        decimal(n / 10).push(digit(n % 10))
    }
}

/// `n` in decimal, with zeros in front up to `width` digits.
pub open spec fn zero_padded(n: nat, width: nat) -> Seq<char> {
    let d = decimal(n);
    if d.len() < width {
        Seq::new((width - d.len()) as nat, |i: int| '0') + d
    } else {
        d
    }
}

proof fn lemma_decimal_len(n: nat)
    ensures
        decimal(n).len() >= 1,
    decreases n,
{
    if n >= 10 {
        lemma_decimal_len(n / 10);
    }
}

fn digit_char(d: u64) -> (c: char)
    requires
        d < 10,
    ensures
        c == digit(d as nat),
{
    match d {
        0 => '0',
        1 => '1',
        2 => '2',
        3 => '3',
        4 => '4',
        5 => '5',
        6 => '6',
        7 => '7',
        8 => '8',
        _ => '9',
    }
}

/// `n` written in decimal.
pub fn decimal_string(n: u64) -> (r: String)
    ensures
        r@ == decimal(n as nat),
{
    let mut digits: Vec<char> = Vec::new();
    let mut m = n;
    let ghost mut tail: Seq<char> = Seq::empty();
    loop
        invariant_except_break
            decimal(n as nat) == decimal(m as nat) + tail,
        invariant
            digits@ == tail.reverse(),
        ensures
            decimal(n as nat) == tail,
        decreases m,
    {
        let d = m % 10;
        let c = digit_char(d);
        if m < 10 {
            proof {
                assert(decimal(m as nat) == seq![c]);
                assert(decimal(m as nat) + tail =~= seq![c] + tail);
                tail = seq![c] + tail;
                assert(digits@.push(c) =~= tail.reverse());
            }
            digits.push(c);
            break;
        }
        proof {
            assert(decimal(m as nat) == decimal((m / 10) as nat).push(digit((m % 10) as nat)));
            assert(decimal(m as nat) + tail =~= decimal((m / 10) as nat) + (seq![c] + tail));
            tail = seq![c] + tail;
            assert(digits@.push(c) =~= tail.reverse());
        }
        digits.push(c);
        m = m / 10;
    }
    assert(decimal(n as nat) == tail);
    let mut r = String::new();
    let mut i = digits.len();
    while i > 0
        invariant
            0 <= i <= digits.len(),
            digits@ == tail.reverse(),
            r@ == tail.take(tail.len() - i),
            tail.len() == digits.len(),
        decreases i,
    {
        i = i - 1;
        push_char(&mut r, digits[i]);
        assert(tail[tail.len() - 1 - i] == digits@[i as int]);
        assert(r@ =~= tail.take(tail.len() - i));
    }
    assert(tail.take(tail.len() as int) =~= tail);
    r
}

/// `n` in decimal, with zeros in front up to `width` digits.
pub fn zero_padded_string(n: u64, width: usize) -> (r: String)
    ensures
        r@ == zero_padded(n as nat, width as nat),
{
    let d = decimal_string(n);
    let len = crate::unicode::chars_of(d.as_str()).len();
    let mut r = String::new();
    let mut k: usize = len;
    while k < width
        invariant
            len == d@.len(),
            len <= k,
            len < width ==> k <= width,
            len >= width ==> k == len,
            r@ == Seq::new((k - len) as nat, |i: int| '0'),
        decreases width - k,
    {
        push_char(&mut r, '0');
        assert(r@ =~= Seq::new((k + 1 - len) as nat, |i: int| '0'));
        k = k + 1;
    }
    let ghost zeros = r@;
    r.append(d.as_str());
    proof {
        if len >= width {
            assert(zeros =~= Seq::<char>::empty());
            assert(r@ =~= d@);
        } else {
            assert(k == width);
        }
    }
    r
}

} // verus!
