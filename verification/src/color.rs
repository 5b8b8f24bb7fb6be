//! Colors: named terminal colors and RGB, parsed from and printed to the
//! strings used in configuration files.

use vstd::prelude::*;
use crate::unicode::{chars_of, copy_str, push_char};

verus! {

#[derive(Copy, Clone, Debug, Eq, PartialEq, Structural)]
pub enum NamedColor {
    Black,
    Blue,
    Cyan,
    Green,
    LightBlack,
    LightBlue,
    LightCyan,
    LightGreen,
    LightMagenta,
    LightRed,
    LightWhite,
    LightYellow,
    Magenta,
    Red,
    White,
    Yellow,
}

/// A color: one of the named terminal colors, an RGB triple, or the
/// terminal's default.
#[derive(Copy, Clone, Debug, PartialEq, Eq, Structural)]
pub enum Color {
    Named(NamedColor),
    Rgb(u8, u8, u8),
    Default,
}

impl Default for Color {
    fn default() -> (r: Self)
        ensures
            r == Color::Default,
    {
        Color::Default
    }
}

/// The lower-case configuration name of a named color.
pub open spec fn lower_name(n: NamedColor) -> Seq<char> {
    match n {
        NamedColor::Black => seq!['b', 'l', 'a', 'c', 'k'],
        NamedColor::Blue => seq!['b', 'l', 'u', 'e'],
        NamedColor::Cyan => seq!['c', 'y', 'a', 'n'],
        NamedColor::Green => seq!['g', 'r', 'e', 'e', 'n'],
        NamedColor::LightBlack => seq!['l', 'i', 'g', 'h', 't', 'b', 'l', 'a', 'c', 'k'],
        NamedColor::LightBlue => seq!['l', 'i', 'g', 'h', 't', 'b', 'l', 'u', 'e'],
        NamedColor::LightCyan => seq!['l', 'i', 'g', 'h', 't', 'c', 'y', 'a', 'n'],
        NamedColor::LightGreen => seq!['l', 'i', 'g', 'h', 't', 'g', 'r', 'e', 'e', 'n'],
        NamedColor::LightMagenta => seq!['l', 'i', 'g', 'h', 't', 'm', 'a', 'g', 'e', 'n', 't', 'a'],
        NamedColor::LightRed => seq!['l', 'i', 'g', 'h', 't', 'r', 'e', 'd'],
        NamedColor::LightWhite => seq!['l', 'i', 'g', 'h', 't', 'w', 'h', 'i', 't', 'e'],
        NamedColor::LightYellow => seq!['l', 'i', 'g', 'h', 't', 'y', 'e', 'l', 'l', 'o', 'w'],
        NamedColor::Magenta => seq!['m', 'a', 'g', 'e', 'n', 't', 'a'],
        NamedColor::Red => seq!['r', 'e', 'd'],
        NamedColor::White => seq!['w', 'h', 'i', 't', 'e'],
        NamedColor::Yellow => seq!['y', 'e', 'l', 'l', 'o', 'w'],
    }
}

/// The capitalized configuration name of a named color.
pub open spec fn camel_name(n: NamedColor) -> Seq<char> {
    match n {
        NamedColor::Black => seq!['B', 'l', 'a', 'c', 'k'],
        NamedColor::Blue => seq!['B', 'l', 'u', 'e'],
        NamedColor::Cyan => seq!['C', 'y', 'a', 'n'],
        NamedColor::Green => seq!['G', 'r', 'e', 'e', 'n'],
        NamedColor::LightBlack => seq!['L', 'i', 'g', 'h', 't', 'B', 'l', 'a', 'c', 'k'],
        NamedColor::LightBlue => seq!['L', 'i', 'g', 'h', 't', 'B', 'l', 'u', 'e'],
        NamedColor::LightCyan => seq!['L', 'i', 'g', 'h', 't', 'C', 'y', 'a', 'n'],
        NamedColor::LightGreen => seq!['L', 'i', 'g', 'h', 't', 'G', 'r', 'e', 'e', 'n'],
        NamedColor::LightMagenta => seq!['L', 'i', 'g', 'h', 't', 'M', 'a', 'g', 'e', 'n', 't', 'a'],
        NamedColor::LightRed => seq!['L', 'i', 'g', 'h', 't', 'R', 'e', 'd'],
        NamedColor::LightWhite => seq!['L', 'i', 'g', 'h', 't', 'W', 'h', 'i', 't', 'e'],
        NamedColor::LightYellow => seq!['L', 'i', 'g', 'h', 't', 'Y', 'e', 'l', 'l', 'o', 'w'],
        NamedColor::Magenta => seq!['M', 'a', 'g', 'e', 'n', 't', 'a'],
        NamedColor::Red => seq!['R', 'e', 'd'],
        NamedColor::White => seq!['W', 'h', 'i', 't', 'e'],
        NamedColor::Yellow => seq!['Y', 'e', 'l', 'l', 'o', 'w'],
    }
}

/// The named color a configuration string names, if any.
pub open spec fn named_from(s: Seq<char>) -> Option<NamedColor> {
    if s == camel_name(NamedColor::Black) || s == lower_name(NamedColor::Black) {
        Some(NamedColor::Black)
    } else if s == camel_name(NamedColor::Blue) || s == lower_name(NamedColor::Blue) {
        Some(NamedColor::Blue)
    } else if s == camel_name(NamedColor::Cyan) || s == lower_name(NamedColor::Cyan) {
        Some(NamedColor::Cyan)
    } else if s == camel_name(NamedColor::Green) || s == lower_name(NamedColor::Green) {
        Some(NamedColor::Green)
    } else if s == camel_name(NamedColor::LightBlack) || s == lower_name(NamedColor::LightBlack) {
        Some(NamedColor::LightBlack)
    } else if s == camel_name(NamedColor::LightBlue) || s == lower_name(NamedColor::LightBlue) {
        Some(NamedColor::LightBlue)
    } else if s == camel_name(NamedColor::LightCyan) || s == lower_name(NamedColor::LightCyan) {
        Some(NamedColor::LightCyan)
    } else if s == camel_name(NamedColor::LightGreen) || s == lower_name(NamedColor::LightGreen) {
        Some(NamedColor::LightGreen)
    } else if s == camel_name(NamedColor::LightMagenta) || s == lower_name(NamedColor::LightMagenta) {
        Some(NamedColor::LightMagenta)
    } else if s == camel_name(NamedColor::LightRed) || s == lower_name(NamedColor::LightRed) {
        Some(NamedColor::LightRed)
    } else if s == camel_name(NamedColor::LightWhite) || s == lower_name(NamedColor::LightWhite) {
        Some(NamedColor::LightWhite)
    } else if s == camel_name(NamedColor::LightYellow) || s == lower_name(NamedColor::LightYellow) {
        Some(NamedColor::LightYellow)
    } else if s == camel_name(NamedColor::Magenta) || s == lower_name(NamedColor::Magenta) {
        Some(NamedColor::Magenta)
    } else if s == camel_name(NamedColor::Red) || s == lower_name(NamedColor::Red) {
        Some(NamedColor::Red)
    } else if s == camel_name(NamedColor::White) || s == lower_name(NamedColor::White) {
        Some(NamedColor::White)
    } else if s == camel_name(NamedColor::Yellow) || s == lower_name(NamedColor::Yellow) {
        Some(NamedColor::Yellow)
    } else {
        None
    }
}

/// The spellings of the default color.
pub open spec fn is_default_name(s: Seq<char>) -> bool {
    s == seq!['n', 'o', 'n', 'e'] || s == seq!['N', 'o', 'n', 'e'] || s == seq!['d', 'e', 'f', 'a', 'u', 'l', 't'] || s == seq!['D', 'e', 'f', 'a', 'u', 'l', 't']
}

pub open spec fn invalid_rgb_prefix() -> Seq<char> {
    seq!['I', 'n', 'v', 'a', 'l', 'i', 'd', ' ', 'r', 'g', 'b', ' ', 's', 't', 'r', 'i', 'n', 'g', ' ']
}

pub open spec fn invalid_color_prefix() -> Seq<char> {
    seq!['I', 'n', 'v', 'a', 'l', 'i', 'd', ' ', 'c', 'o', 'l', 'o', 'r', ' ']
}

/// Lower-case hexadecimal digits.
pub open spec fn is_hex_digit(c: char) -> bool {
    ('0' <= c && c <= '9') || ('a' <= c && c <= 'f')
}

pub open spec fn hex_value(c: char) -> int {
    if '0' <= c && c <= '9' {
        (c as u32) - ('0' as u32)
    } else {
        (c as u32) - ('a' as u32) + 10
    }
}

/// The digit for a value below 16.
pub open spec fn hex_digit(v: int) -> char {
    if v < 10 {
        ((v + ('0' as u32)) as u32) as char
    } else {
        ((v - 10 + ('a' as u32)) as u32) as char
    }
}

/// `#rrggbb` with lower-case hexadecimal digits.
pub open spec fn parse_rgb_spec(s: Seq<char>) -> Result<Color, Seq<char>> {
    if s.len() == 7 && s[0] == '#' && (forall|i: int| 1 <= i < 7 ==> is_hex_digit(#[trigger] s[i])) {
        Ok(
            Color::Rgb(
                (hex_value(s[1]) * 16 + hex_value(s[2])) as u8,
                (hex_value(s[3]) * 16 + hex_value(s[4])) as u8,
                (hex_value(s[5]) * 16 + hex_value(s[6])) as u8,
            ),
        )
    } else {
        Err(invalid_rgb_prefix() + s)
    }
}

/// What a configuration string stands for.
pub open spec fn color_from_spec(s: Seq<char>) -> Result<Color, Seq<char>> {
    if is_default_name(s) {
        Ok(Color::Default)
    } else if named_from(s) is Some {
        Ok(Color::Named(named_from(s)->0))
    } else if s.len() > 0 && s[0] == '#' {
        parse_rgb_spec(s)
    } else {
        Err(invalid_color_prefix() + s)
    }
}

/// Two lower-case hexadecimal digits of a byte.
pub open spec fn hex2(v: u8) -> Seq<char> {
    seq![hex_digit(v as int / 16), hex_digit(v as int % 16)]
}

/// The configuration string of a color.
pub open spec fn color_to_spec(c: Color) -> Seq<char> {
    match c {
        Color::Default => seq!['n', 'o', 'n', 'e'],
        Color::Named(n) => lower_name(n),
        Color::Rgb(r, g, b) => seq!['#'] + hex2(r) + hex2(g) + hex2(b),
    }
}

fn same_chars(cs: &Vec<char>, lit: &str) -> (r: bool)
    ensures
        r == (cs@ == lit@),
{
    let ls = chars_of(lit);
    if cs.len() != ls.len() {
        return false;
    }
    for i in 0..cs.len()
        invariant
            cs.len() == ls.len(),
            ls@ == lit@,
            forall|j: int| 0 <= j < i ==> cs@[j] == ls@[j],
    {
        if cs[i] != ls[i] {
            return false;
        }
    }
    assert(cs@ =~= ls@);
    true
}

fn hex_of(c: char) -> (v: u8)
    requires
        is_hex_digit(c),
    ensures
        v == hex_value(c),
        v < 16,
{
    if '0' <= c && c <= '9' {
        ((c as u32) - ('0' as u32)) as u8
    } else {
        ((c as u32) - ('a' as u32) + 10) as u8
    }
}

/// Parse `#rrggbb`.
pub fn parse_rgb_str(s: &str) -> (r: Result<Color, String>)
    ensures
        match (r, parse_rgb_spec(s@)) {
            (Ok(c), Ok(d)) => c == d,
            (Err(e), Err(f)) => e@ == f,
            _ => false,
        },
{
    let cs = chars_of(s);
    let mut ok = cs.len() == 7 && cs[0] == '#';
    if ok {
        for i in 1..7
            invariant
                cs@ == s@,
                cs.len() == 7,
                ok ==> forall|j: int| 1 <= j < i ==> is_hex_digit(#[trigger] cs@[j]),
                !ok ==> exists|j: int| 1 <= j < 7 && !is_hex_digit(#[trigger] cs@[j]),
        {
            let c = cs[i];
            if !(('0' <= c && c <= '9') || ('a' <= c && c <= 'f')) {
                ok = false;
            }
        }
    }
    if ok {
        let red = hex_of(cs[1]) * 16 + hex_of(cs[2]);
        let green = hex_of(cs[3]) * 16 + hex_of(cs[4]);
        let blue = hex_of(cs[5]) * 16 + hex_of(cs[6]);
        Ok(Color::Rgb(red, green, blue))
    } else {
        proof {
            reveal_strlit("Invalid rgb string ");
            assert("Invalid rgb string "@ =~= seq!['I', 'n', 'v', 'a', 'l', 'i', 'd', ' ', 'r', 'g', 'b', ' ', 's', 't', 'r', 'i', 'n', 'g', ' ']);
        }
        let mut e = copy_str("Invalid rgb string ");
        e.append(s);
        Err(e)
    }
}

impl Color {
    /// Parse a configuration string.
    pub fn from_str(s: &str) -> (r: Result<Color, String>)
        ensures
            match (r, color_from_spec(s@)) {
                (Ok(c), Ok(d)) => c == d,
                (Err(e), Err(f)) => e@ == f,
                _ => false,
            },
    {
        let cs = chars_of(s);
        proof {
            reveal_strlit("none");
            assert("none"@ =~= seq!['n', 'o', 'n', 'e']);
            reveal_strlit("None");
            assert("None"@ =~= seq!['N', 'o', 'n', 'e']);
            reveal_strlit("default");
            assert("default"@ =~= seq!['d', 'e', 'f', 'a', 'u', 'l', 't']);
            reveal_strlit("Default");
            assert("Default"@ =~= seq!['D', 'e', 'f', 'a', 'u', 'l', 't']);
            reveal_strlit("Black");
            assert("Black"@ =~= seq!['B', 'l', 'a', 'c', 'k']);
            reveal_strlit("black");
            assert("black"@ =~= seq!['b', 'l', 'a', 'c', 'k']);
            reveal_strlit("Blue");
            assert("Blue"@ =~= seq!['B', 'l', 'u', 'e']);
            reveal_strlit("blue");
            assert("blue"@ =~= seq!['b', 'l', 'u', 'e']);
            reveal_strlit("Cyan");
            assert("Cyan"@ =~= seq!['C', 'y', 'a', 'n']);
            reveal_strlit("cyan");
            assert("cyan"@ =~= seq!['c', 'y', 'a', 'n']);
            reveal_strlit("Green");
            assert("Green"@ =~= seq!['G', 'r', 'e', 'e', 'n']);
            reveal_strlit("green");
            assert("green"@ =~= seq!['g', 'r', 'e', 'e', 'n']);
            reveal_strlit("LightBlack");
            assert("LightBlack"@ =~= seq!['L', 'i', 'g', 'h', 't', 'B', 'l', 'a', 'c', 'k']);
            reveal_strlit("lightblack");
            assert("lightblack"@ =~= seq!['l', 'i', 'g', 'h', 't', 'b', 'l', 'a', 'c', 'k']);
            reveal_strlit("LightBlue");
            assert("LightBlue"@ =~= seq!['L', 'i', 'g', 'h', 't', 'B', 'l', 'u', 'e']);
            reveal_strlit("lightblue");
            assert("lightblue"@ =~= seq!['l', 'i', 'g', 'h', 't', 'b', 'l', 'u', 'e']);
            reveal_strlit("LightCyan");
            assert("LightCyan"@ =~= seq!['L', 'i', 'g', 'h', 't', 'C', 'y', 'a', 'n']);
            reveal_strlit("lightcyan");
            assert("lightcyan"@ =~= seq!['l', 'i', 'g', 'h', 't', 'c', 'y', 'a', 'n']);
            reveal_strlit("LightGreen");
            assert("LightGreen"@ =~= seq!['L', 'i', 'g', 'h', 't', 'G', 'r', 'e', 'e', 'n']);
            reveal_strlit("lightgreen");
            assert("lightgreen"@ =~= seq!['l', 'i', 'g', 'h', 't', 'g', 'r', 'e', 'e', 'n']);
            reveal_strlit("LightMagenta");
            assert("LightMagenta"@ =~= seq!['L', 'i', 'g', 'h', 't', 'M', 'a', 'g', 'e', 'n', 't', 'a']);
            reveal_strlit("lightmagenta");
            assert("lightmagenta"@ =~= seq!['l', 'i', 'g', 'h', 't', 'm', 'a', 'g', 'e', 'n', 't', 'a']);
            reveal_strlit("LightRed");
            assert("LightRed"@ =~= seq!['L', 'i', 'g', 'h', 't', 'R', 'e', 'd']);
            reveal_strlit("lightred");
            assert("lightred"@ =~= seq!['l', 'i', 'g', 'h', 't', 'r', 'e', 'd']);
            reveal_strlit("LightWhite");
            assert("LightWhite"@ =~= seq!['L', 'i', 'g', 'h', 't', 'W', 'h', 'i', 't', 'e']);
            reveal_strlit("lightwhite");
            assert("lightwhite"@ =~= seq!['l', 'i', 'g', 'h', 't', 'w', 'h', 'i', 't', 'e']);
            reveal_strlit("LightYellow");
            assert("LightYellow"@ =~= seq!['L', 'i', 'g', 'h', 't', 'Y', 'e', 'l', 'l', 'o', 'w']);
            reveal_strlit("lightyellow");
            assert("lightyellow"@ =~= seq!['l', 'i', 'g', 'h', 't', 'y', 'e', 'l', 'l', 'o', 'w']);
            reveal_strlit("Magenta");
            assert("Magenta"@ =~= seq!['M', 'a', 'g', 'e', 'n', 't', 'a']);
            reveal_strlit("magenta");
            assert("magenta"@ =~= seq!['m', 'a', 'g', 'e', 'n', 't', 'a']);
            reveal_strlit("Red");
            assert("Red"@ =~= seq!['R', 'e', 'd']);
            reveal_strlit("red");
            assert("red"@ =~= seq!['r', 'e', 'd']);
            reveal_strlit("White");
            assert("White"@ =~= seq!['W', 'h', 'i', 't', 'e']);
            reveal_strlit("white");
            assert("white"@ =~= seq!['w', 'h', 'i', 't', 'e']);
            reveal_strlit("Yellow");
            assert("Yellow"@ =~= seq!['Y', 'e', 'l', 'l', 'o', 'w']);
            reveal_strlit("yellow");
            assert("yellow"@ =~= seq!['y', 'e', 'l', 'l', 'o', 'w']);
            reveal_strlit("Invalid color ");
            assert("Invalid color "@ =~= seq!['I', 'n', 'v', 'a', 'l', 'i', 'd', ' ', 'c', 'o', 'l', 'o', 'r', ' ']);
        }
        if same_chars(&cs, "none") || same_chars(&cs, "None") || same_chars(&cs, "default") || same_chars(&cs, "Default") {
            return Ok(Color::Default);
        }
        if same_chars(&cs, "Black") || same_chars(&cs, "black") {
            return Ok(Color::Named(NamedColor::Black));
        }
        if same_chars(&cs, "Blue") || same_chars(&cs, "blue") {
            return Ok(Color::Named(NamedColor::Blue));
        }
        if same_chars(&cs, "Cyan") || same_chars(&cs, "cyan") {
            return Ok(Color::Named(NamedColor::Cyan));
        }
        if same_chars(&cs, "Green") || same_chars(&cs, "green") {
            return Ok(Color::Named(NamedColor::Green));
        }
        if same_chars(&cs, "LightBlack") || same_chars(&cs, "lightblack") {
            return Ok(Color::Named(NamedColor::LightBlack));
        }
        if same_chars(&cs, "LightBlue") || same_chars(&cs, "lightblue") {
            return Ok(Color::Named(NamedColor::LightBlue));
        }
        if same_chars(&cs, "LightCyan") || same_chars(&cs, "lightcyan") {
            return Ok(Color::Named(NamedColor::LightCyan));
        }
        if same_chars(&cs, "LightGreen") || same_chars(&cs, "lightgreen") {
            return Ok(Color::Named(NamedColor::LightGreen));
        }
        if same_chars(&cs, "LightMagenta") || same_chars(&cs, "lightmagenta") {
            return Ok(Color::Named(NamedColor::LightMagenta));
        }
        if same_chars(&cs, "LightRed") || same_chars(&cs, "lightred") {
            return Ok(Color::Named(NamedColor::LightRed));
        }
        if same_chars(&cs, "LightWhite") || same_chars(&cs, "lightwhite") {
            return Ok(Color::Named(NamedColor::LightWhite));
        }
        if same_chars(&cs, "LightYellow") || same_chars(&cs, "lightyellow") {
            return Ok(Color::Named(NamedColor::LightYellow));
        }
        if same_chars(&cs, "Magenta") || same_chars(&cs, "magenta") {
            return Ok(Color::Named(NamedColor::Magenta));
        }
        if same_chars(&cs, "Red") || same_chars(&cs, "red") {
            return Ok(Color::Named(NamedColor::Red));
        }
        if same_chars(&cs, "White") || same_chars(&cs, "white") {
            return Ok(Color::Named(NamedColor::White));
        }
        if same_chars(&cs, "Yellow") || same_chars(&cs, "yellow") {
            return Ok(Color::Named(NamedColor::Yellow));
        }
        if cs.len() > 0 && cs[0] == '#' {
            return parse_rgb_str(s);
        }
        let mut e = copy_str("Invalid color ");
        e.append(s);
        Err(e)
    }

    /// The configuration string of this color.
    pub fn to_string(&self) -> (r: String)
        ensures
            r@ == color_to_spec(*self),
    {
        match self {
            Color::Default => {
                proof {
                    reveal_strlit("none");
                    assert("none"@ =~= seq!['n', 'o', 'n', 'e']);
                }
                copy_str("none")
            },
            Color::Named(n) => {
                proof {
                    reveal_strlit("black");
                    assert("black"@ =~= seq!['b', 'l', 'a', 'c', 'k']);
                    reveal_strlit("blue");
                    assert("blue"@ =~= seq!['b', 'l', 'u', 'e']);
                    reveal_strlit("cyan");
                    assert("cyan"@ =~= seq!['c', 'y', 'a', 'n']);
                    reveal_strlit("green");
                    assert("green"@ =~= seq!['g', 'r', 'e', 'e', 'n']);
                    reveal_strlit("lightblack");
                    assert("lightblack"@ =~= seq!['l', 'i', 'g', 'h', 't', 'b', 'l', 'a', 'c', 'k']);
                    reveal_strlit("lightblue");
                    assert("lightblue"@ =~= seq!['l', 'i', 'g', 'h', 't', 'b', 'l', 'u', 'e']);
                    reveal_strlit("lightcyan");
                    assert("lightcyan"@ =~= seq!['l', 'i', 'g', 'h', 't', 'c', 'y', 'a', 'n']);
                    reveal_strlit("lightgreen");
                    assert("lightgreen"@ =~= seq!['l', 'i', 'g', 'h', 't', 'g', 'r', 'e', 'e', 'n']);
                    reveal_strlit("lightmagenta");
                    assert("lightmagenta"@ =~= seq!['l', 'i', 'g', 'h', 't', 'm', 'a', 'g', 'e', 'n', 't', 'a']);
                    reveal_strlit("lightred");
                    assert("lightred"@ =~= seq!['l', 'i', 'g', 'h', 't', 'r', 'e', 'd']);
                    reveal_strlit("lightwhite");
                    assert("lightwhite"@ =~= seq!['l', 'i', 'g', 'h', 't', 'w', 'h', 'i', 't', 'e']);
                    reveal_strlit("lightyellow");
                    assert("lightyellow"@ =~= seq!['l', 'i', 'g', 'h', 't', 'y', 'e', 'l', 'l', 'o', 'w']);
                    reveal_strlit("magenta");
                    assert("magenta"@ =~= seq!['m', 'a', 'g', 'e', 'n', 't', 'a']);
                    reveal_strlit("red");
                    assert("red"@ =~= seq!['r', 'e', 'd']);
                    reveal_strlit("white");
                    assert("white"@ =~= seq!['w', 'h', 'i', 't', 'e']);
                    reveal_strlit("yellow");
                    assert("yellow"@ =~= seq!['y', 'e', 'l', 'l', 'o', 'w']);
                }
                match n {
                    NamedColor::Black => copy_str("black"),
                    NamedColor::Blue => copy_str("blue"),
                    NamedColor::Cyan => copy_str("cyan"),
                    NamedColor::Green => copy_str("green"),
                    NamedColor::LightBlack => copy_str("lightblack"),
                    NamedColor::LightBlue => copy_str("lightblue"),
                    NamedColor::LightCyan => copy_str("lightcyan"),
                    NamedColor::LightGreen => copy_str("lightgreen"),
                    NamedColor::LightMagenta => copy_str("lightmagenta"),
                    NamedColor::LightRed => copy_str("lightred"),
                    NamedColor::LightWhite => copy_str("lightwhite"),
                    NamedColor::LightYellow => copy_str("lightyellow"),
                    NamedColor::Magenta => copy_str("magenta"),
                    NamedColor::Red => copy_str("red"),
                    NamedColor::White => copy_str("white"),
                    NamedColor::Yellow => copy_str("yellow"),
                }
            },
            Color::Rgb(r, g, b) => {
                let mut s = String::new();
                push_char(&mut s, '#');
                push_hex2(&mut s, *r);
                push_hex2(&mut s, *g);
                push_hex2(&mut s, *b);
                s
            },
        }
    }
}

fn hex_char(v: u8) -> (c: char)
    requires
        v < 16,
    ensures
        c == hex_digit(v as int),
{
    if v < 10 {
        (v + 48) as char
    } else {
        (v - 10 + 97) as char
    }
}

fn push_hex2(s: &mut String, v: u8)
    ensures
        final(s)@ == old(s)@ + hex2(v),
{
    push_char(s, hex_char(v / 16));
    push_char(s, hex_char(v % 16));
}

/// Foreground color of a cell.
#[derive(Copy, Clone, Debug, PartialEq, Eq, Structural)]
pub struct FgColor(pub Color);

/// Background color of a cell.
#[derive(Copy, Clone, Debug, PartialEq, Eq, Structural)]
pub struct BgColor(pub Color);

impl Default for FgColor {
    fn default() -> (r: Self)
        ensures
            r.0 == Color::Default,
    {
        FgColor(Color::Default)
    }
}

impl Default for BgColor {
    fn default() -> (r: Self)
        ensures
            r.0 == Color::Default,
    {
        BgColor(Color::Default)
    }
}

/// A foreground or background color written untyped in the configuration.
pub trait ConfigColor: Sized {
    fn to_string(&self) -> String;

    fn from_str(string: &str) -> Result<Self, String>;
}

impl ConfigColor for FgColor {
    fn to_string(&self) -> (r: String)
        ensures
            r@ == color_to_spec(self.0),
    {
        self.0.to_string()
    }

    fn from_str(string: &str) -> (r: Result<Self, String>)
        ensures
            match (r, color_from_spec(string@)) {
                (Ok(c), Ok(d)) => c.0 == d,
                (Err(e), Err(f)) => e@ == f,
                _ => false,
            },
    {
        match Color::from_str(string) {
            Ok(c) => Ok(FgColor(c)),
            Err(e) => Err(e),
        }
    }
}

impl ConfigColor for BgColor {
    fn to_string(&self) -> (r: String)
        ensures
            r@ == color_to_spec(self.0),
    {
        self.0.to_string()
    }

    fn from_str(string: &str) -> (r: Result<Self, String>)
        ensures
            match (r, color_from_spec(string@)) {
                (Ok(c), Ok(d)) => c.0 == d,
                (Err(e), Err(f)) => e@ == f,
                _ => false,
            },
    {
        match Color::from_str(string) {
            Ok(c) => Ok(BgColor(c)),
            Err(e) => Err(e),
        }
    }
}

/// A background and foreground color pair.
#[derive(Debug, Clone, Copy, PartialEq, Eq, Structural)]
pub struct ColorTuple {
    pub bg: BgColor,
    pub fg: FgColor,
}

impl Default for ColorTuple {
    fn default() -> (r: Self)
        ensures
            r.bg.0 == Color::Default,
            r.fg.0 == Color::Default,
    {
        ColorTuple { bg: BgColor(Color::Default), fg: FgColor(Color::Default) }
    }
}

impl ColorTuple {
    pub fn new(bg: Color, fg: Color) -> (r: Self)
        ensures
            r.bg.0 == bg,
            r.fg.0 == fg,
    {
        ColorTuple { bg: BgColor(bg), fg: FgColor(fg) }
    }
}


proof fn lemma_hex_digit_roundtrip(v: int)
    requires
        0 <= v < 16,
    ensures
        is_hex_digit(hex_digit(v)),
        hex_value(hex_digit(v)) == v,
        hex_digit(v) != '#',
{
    let u: u32 = if v < 10 {
        (v + 48) as u32
    } else {
        (v - 10 + 97) as u32
    };
    assert(hex_digit(v) == u as char);
    assert(u as char as u32 == u) by {
        assert(vstd::utf8::is_scalar(u)) by {
            assert(vstd::utf8::has_width_1_encoding(u));
        }
    }
}

proof fn lemma_named_roundtrip_black()
    ensures
        named_from(lower_name(NamedColor::Black)) == Some(NamedColor::Black),
        !is_default_name(lower_name(NamedColor::Black)),
{
    let s = lower_name(NamedColor::Black);
    assert(s.len() == 5);
    assert(s[0] == 'b');
}

proof fn lemma_named_roundtrip_blue()
    ensures
        named_from(lower_name(NamedColor::Blue)) == Some(NamedColor::Blue),
        !is_default_name(lower_name(NamedColor::Blue)),
{
    let s = lower_name(NamedColor::Blue);
    assert(s.len() == 4);
    assert(s[0] == 'b');
}

proof fn lemma_named_roundtrip_cyan()
    ensures
        named_from(lower_name(NamedColor::Cyan)) == Some(NamedColor::Cyan),
        !is_default_name(lower_name(NamedColor::Cyan)),
{
    let s = lower_name(NamedColor::Cyan);
    assert(s.len() == 4);
    assert(s[0] == 'c');
}

proof fn lemma_named_roundtrip_green()
    ensures
        named_from(lower_name(NamedColor::Green)) == Some(NamedColor::Green),
        !is_default_name(lower_name(NamedColor::Green)),
{
    let s = lower_name(NamedColor::Green);
    assert(s.len() == 5);
    assert(s[0] == 'g');
}

proof fn lemma_named_roundtrip_lightblack()
    ensures
        named_from(lower_name(NamedColor::LightBlack)) == Some(NamedColor::LightBlack),
        !is_default_name(lower_name(NamedColor::LightBlack)),
{
    let s = lower_name(NamedColor::LightBlack);
    assert(s.len() == 10);
    assert(s[0] == 'l');
}

proof fn lemma_named_roundtrip_lightblue()
    ensures
        named_from(lower_name(NamedColor::LightBlue)) == Some(NamedColor::LightBlue),
        !is_default_name(lower_name(NamedColor::LightBlue)),
{
    let s = lower_name(NamedColor::LightBlue);
    assert(s.len() == 9);
    assert(s[0] == 'l');
}

proof fn lemma_named_roundtrip_lightcyan()
    ensures
        named_from(lower_name(NamedColor::LightCyan)) == Some(NamedColor::LightCyan),
        !is_default_name(lower_name(NamedColor::LightCyan)),
{
    let s = lower_name(NamedColor::LightCyan);
    assert(s.len() == 9);
    assert(s[0] == 'l');
}

proof fn lemma_named_roundtrip_lightgreen()
    ensures
        named_from(lower_name(NamedColor::LightGreen)) == Some(NamedColor::LightGreen),
        !is_default_name(lower_name(NamedColor::LightGreen)),
{
    let s = lower_name(NamedColor::LightGreen);
    assert(s.len() == 10);
    assert(s[0] == 'l');
}

proof fn lemma_named_roundtrip_lightmagenta()
    ensures
        named_from(lower_name(NamedColor::LightMagenta)) == Some(NamedColor::LightMagenta),
        !is_default_name(lower_name(NamedColor::LightMagenta)),
{
    let s = lower_name(NamedColor::LightMagenta);
    assert(s.len() == 12);
    assert(s[0] == 'l');
}

proof fn lemma_named_roundtrip_lightred()
    ensures
        named_from(lower_name(NamedColor::LightRed)) == Some(NamedColor::LightRed),
        !is_default_name(lower_name(NamedColor::LightRed)),
{
    let s = lower_name(NamedColor::LightRed);
    assert(s.len() == 8);
    assert(s[0] == 'l');
}

proof fn lemma_named_roundtrip_lightwhite()
    ensures
        named_from(lower_name(NamedColor::LightWhite)) == Some(NamedColor::LightWhite),
        !is_default_name(lower_name(NamedColor::LightWhite)),
{
    let s = lower_name(NamedColor::LightWhite);
    assert(s.len() == 10);
    assert(s[0] == 'l');
}

proof fn lemma_named_roundtrip_lightyellow()
    ensures
        named_from(lower_name(NamedColor::LightYellow)) == Some(NamedColor::LightYellow),
        !is_default_name(lower_name(NamedColor::LightYellow)),
{
    let s = lower_name(NamedColor::LightYellow);
    assert(s.len() == 11);
    assert(s[0] == 'l');
}

proof fn lemma_named_roundtrip_magenta()
    ensures
        named_from(lower_name(NamedColor::Magenta)) == Some(NamedColor::Magenta),
        !is_default_name(lower_name(NamedColor::Magenta)),
{
    let s = lower_name(NamedColor::Magenta);
    assert(s.len() == 7);
    assert(s[0] == 'm');
}

proof fn lemma_named_roundtrip_red()
    ensures
        named_from(lower_name(NamedColor::Red)) == Some(NamedColor::Red),
        !is_default_name(lower_name(NamedColor::Red)),
{
    let s = lower_name(NamedColor::Red);
    assert(s.len() == 3);
    assert(s[0] == 'r');
}

proof fn lemma_named_roundtrip_white()
    ensures
        named_from(lower_name(NamedColor::White)) == Some(NamedColor::White),
        !is_default_name(lower_name(NamedColor::White)),
{
    let s = lower_name(NamedColor::White);
    assert(s.len() == 5);
    assert(s[0] == 'w');
}

proof fn lemma_named_roundtrip_yellow()
    ensures
        named_from(lower_name(NamedColor::Yellow)) == Some(NamedColor::Yellow),
        !is_default_name(lower_name(NamedColor::Yellow)),
{
    let s = lower_name(NamedColor::Yellow);
    assert(s.len() == 6);
    assert(s[0] == 'y');
}

proof fn lemma_named_roundtrip(n: NamedColor)
    ensures
        color_from_spec(color_to_spec(Color::Named(n))) == Ok::<Color, Seq<char>>(Color::Named(n)),
{
    match n {
        NamedColor::Black => lemma_named_roundtrip_black(),
        NamedColor::Blue => lemma_named_roundtrip_blue(),
        NamedColor::Cyan => lemma_named_roundtrip_cyan(),
        NamedColor::Green => lemma_named_roundtrip_green(),
        NamedColor::LightBlack => lemma_named_roundtrip_lightblack(),
        NamedColor::LightBlue => lemma_named_roundtrip_lightblue(),
        NamedColor::LightCyan => lemma_named_roundtrip_lightcyan(),
        NamedColor::LightGreen => lemma_named_roundtrip_lightgreen(),
        NamedColor::LightMagenta => lemma_named_roundtrip_lightmagenta(),
        NamedColor::LightRed => lemma_named_roundtrip_lightred(),
        NamedColor::LightWhite => lemma_named_roundtrip_lightwhite(),
        NamedColor::LightYellow => lemma_named_roundtrip_lightyellow(),
        NamedColor::Magenta => lemma_named_roundtrip_magenta(),
        NamedColor::Red => lemma_named_roundtrip_red(),
        NamedColor::White => lemma_named_roundtrip_white(),
        NamedColor::Yellow => lemma_named_roundtrip_yellow(),
    }
}

/// Printing a color and parsing the result gives the color back.
pub proof fn lemma_color_roundtrip(c: Color)
    ensures
        color_from_spec(color_to_spec(c)) == Ok::<Color, Seq<char>>(c),
{
    match c {
        Color::Default => {
            assert(is_default_name(color_to_spec(c)));
        },
        Color::Named(n) => lemma_named_roundtrip(n),
        Color::Rgb(r, g, b) => {
            let s = color_to_spec(c);
            lemma_hex_digit_roundtrip(r as int / 16);
            lemma_hex_digit_roundtrip(r as int % 16);
            lemma_hex_digit_roundtrip(g as int / 16);
            lemma_hex_digit_roundtrip(g as int % 16);
            lemma_hex_digit_roundtrip(b as int / 16);
            lemma_hex_digit_roundtrip(b as int % 16);
            assert(s.len() == 7);
            assert(s[0] == '#');
            assert(s[1] == hex_digit(r as int / 16));
            assert(s[2] == hex_digit(r as int % 16));
            assert(s[3] == hex_digit(g as int / 16));
            assert(s[4] == hex_digit(g as int % 16));
            assert(s[5] == hex_digit(b as int / 16));
            assert(s[6] == hex_digit(b as int % 16));
            assert(!is_default_name(s));
            assert(named_from(s) is None);
            assert(forall|i: int| 1 <= i < 7 ==> is_hex_digit(#[trigger] s[i]));
        },
    }
}

} // verus!
