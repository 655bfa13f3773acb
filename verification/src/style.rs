//! Colours and text styles, and how a colour is written in the configuration.

use vstd::prelude::*;
use crate::text::str_chars;

verus! {

/// A terminal colour.
#[derive(Debug, Default, Clone, Copy, PartialEq, Eq, Structural)]
pub enum Color {
    Rgb(u8, u8, u8),
    Black,
    Red,
    Green,
    Yellow,
    Blue,
    Magenta,
    Cyan,
    #[default]
    White,
    LightRed,
    LightGreen,
    LightYellow,
    LightBlue,
    LightMagenta,
    LightCyan,
    Reset,
}

/// The text modifiers a style can add.
#[derive(Debug, Default, Clone, Copy, PartialEq, Eq, Structural)]
pub struct Modifier {
    pub bold: bool,
    pub italic: bool,
}

/// A foreground colour, a background colour and modifiers.
#[derive(Debug, Clone, Copy, PartialEq, Eq, Structural)]
pub struct Style {
    pub color: Color,
    pub bg: Color,
    pub mods: Modifier,
}

/// The style with the default colour on no background, without modifiers.
pub open spec fn default_style() -> Style {
    Style { color: Color::White, bg: Color::Reset, mods: Modifier { bold: false, italic: false } }
}

impl Default for Style {
    fn default() -> (r: Style)
        ensures
            r == default_style(),
    {
        Style { color: Color::White, bg: Color::Reset, mods: Modifier { bold: false, italic: false } }
    }
}

impl Style {
    /// The colour `color` on no background.
    pub fn color(color: Color) -> (r: Style)
        ensures
            r == (Style { color, ..default_style() }),
    {
        Style { color, bg: Color::Reset, mods: Modifier { bold: false, italic: false } }
    }

    /// The colour `fg` on the background `bg`.
    pub fn bg(fg: Color, bg: Color) -> (r: Style)
        ensures
            r == (Style { color: fg, bg, ..default_style() }),
    {
        Style { color: fg, bg, mods: Modifier { bold: false, italic: false } }
    }
}

/// Why a colour, a key or a modifier could not be read.
#[derive(Debug, PartialEq, Eq, Clone, Copy)]
pub enum ParseError {
    InvalidColor,
    InvalidKey,
    InvalidModifier,
}

/// `t` stands in `s` at position `i`.
pub open spec fn has_text(s: Seq<char>, i: int, t: Seq<char>) -> bool {
    0 <= i && i + t.len() <= s.len() && s.subrange(i, i + t.len()) == t
}

/// Whether `t` stands in `cs` at position `i`.
pub fn text_at(cs: &Vec<char>, i: usize, t: &str) -> (r: bool)
    ensures
        r == has_text(cs@, i as int, t@),
{
    let ts = str_chars(t);
    if i > cs.len() || ts.len() > cs.len() - i {
        return false;
    }
    let mut j: usize = 0;
    while j < ts.len()
        invariant
            i + ts.len() <= cs.len(),
            j <= ts@.len(),
            ts@ == t@,
            forall|k: int| 0 <= k < j ==> cs@[i + k] == ts@[k],
        decreases ts@.len() - j,
    {
        if cs[i + j] != ts[j] {
            proof {
                assert(cs@.subrange(i as int, i + ts@.len())[j as int] != t@[j as int]);
            }
            return false;
        }
        j = j + 1;
    }
    proof {
        assert(cs@.subrange(i as int, i + ts@.len()) =~= t@);
    }
    true
}

/// The colour named `s` exactly; `none` is the terminal's own colour.
pub open spec fn named_color(s: Seq<char>) -> Option<Color> {
    if s == "black"@ {
        Some(Color::Black)
    } else if s == "red"@ {
        Some(Color::Red)
    } else if s == "green"@ {
        Some(Color::Green)
    } else if s == "yellow"@ {
        Some(Color::Yellow)
    } else if s == "blue"@ {
        Some(Color::Blue)
    } else if s == "magenta"@ {
        Some(Color::Magenta)
    } else if s == "cyan"@ {
        Some(Color::Cyan)
    } else if s == "white"@ {
        Some(Color::White)
    } else if s == "none"@ {
        Some(Color::Reset)
    } else if s == "lightred"@ {
        Some(Color::LightRed)
    } else if s == "lightgreen"@ {
        Some(Color::LightGreen)
    } else if s == "lightyellow"@ {
        Some(Color::LightYellow)
    } else if s == "lightblue"@ {
        Some(Color::LightBlue)
    } else if s == "lightmagenta"@ {
        Some(Color::LightMagenta)
    } else if s == "lightcyan"@ {
        Some(Color::LightCyan)
    } else {
        None
    }
}

pub open spec fn is_hex_digit(c: char) -> bool {
    ('0' <= c && c <= '9') || ('a' <= c && c <= 'f') || ('A' <= c && c <= 'F')
}

pub open spec fn hex_value(c: char) -> int {
    if '0' <= c && c <= '9' {
        c as int - '0' as int
    } else if 'a' <= c && c <= 'f' {
        c as int - 'a' as int + 10
    } else {
        c as int - 'A' as int + 10
    }
}

/// The byte written by the two hex digits at `i`.
pub open spec fn hex_byte(s: Seq<char>, i: int) -> u8 {
    (16 * hex_value(s[i]) + hex_value(s[i + 1])) as u8
}

/// `#rrggbb` at the start of `s`; what follows is not read.
pub open spec fn hex_color(s: Seq<char>) -> Option<Color> {
    if s.len() >= 7 && s[0] == '#' && (forall|i: int| 1 <= i < 7 ==> is_hex_digit(#[trigger] s[i])) {
        Some(Color::Rgb(hex_byte(s, 1), hex_byte(s, 3), hex_byte(s, 5)))
    } else {
        None
    }
}

pub open spec fn is_space(c: char) -> bool {
    c == ' ' || c == '\t' || c == '\r' || c == '\n'
}

/// The first position from `i` on that holds no white space.
pub open spec fn skip_space(s: Seq<char>, i: int) -> int
    decreases s.len() - i,
{
    if 0 <= i < s.len() && is_space(s[i]) {
        skip_space(s, i + 1)
    } else {
        i
    }
}

pub open spec fn is_digit(c: char) -> bool {
    '0' <= c && c <= '9'
}

/// The first position from `i` on that holds no digit.
pub open spec fn digits_end(s: Seq<char>, i: int) -> int
    decreases s.len() - i,
{
    if 0 <= i < s.len() && is_digit(s[i]) {
        digits_end(s, i + 1)
    } else {
        i
    }
}

/// The number the digits from `i` to `j` write.
pub open spec fn decimal(s: Seq<char>, i: int, j: int) -> int
    decreases j - i,
{
    if j <= i {
        0
    } else {
        decimal(s, i, j - 1) * 10 + (s[j - 1] as int - '0' as int)
    }
}

/// A byte written in decimal at `i`, and the position after it.
pub open spec fn byte_at(s: Seq<char>, i: int) -> Option<(u8, int)> {
    let j = digits_end(s, i);
    if j > i && decimal(s, i, j) <= 255 {
        Some((decimal(s, i, j) as u8, j))
    } else {
        None
    }
}

/// The byte at `i` after white space, then white space and `sep`, and the position after `sep`.
pub open spec fn byte_then(s: Seq<char>, i: int, sep: char) -> Option<(u8, int)> {
    match byte_at(s, skip_space(s, i)) {
        None => None,
        Some((v, j)) => {
            let k = skip_space(s, j);
            if 0 <= k < s.len() && s[k] == sep {
                Some((v, k + 1))
            } else {
                None
            }
        },
    }
}

/// `rgb(r, g, b)` at the start of `s`, with white space anywhere between the parts; what
/// follows the closing bracket is not read.
pub open spec fn rgb_color(s: Seq<char>) -> Option<Color> {
    let a = skip_space(s, 0);
    if !has_text(s, a, "rgb"@) {
        None
    } else {
        let b = skip_space(s, a + "rgb"@.len());
        if !(b < s.len() && s[b] == '(') {
            None
        } else {
            match byte_then(s, b + 1, ',') {
                None => None,
                Some((r, c)) => match byte_then(s, c, ',') {
                    None => None,
                    Some((g, d)) => match byte_then(s, d, ')') {
                        None => None,
                        Some((bl, _)) => Some(Color::Rgb(r, g, bl)),
                    },
                },
            }
        }
    }
}

/// The colour that `s` writes: a colour's name, `#rrggbb` or `rgb(r, g, b)`.
pub open spec fn parse_color(s: Seq<char>) -> Option<Color> {
    match named_color(s) {
        Some(c) => Some(c),
        None => match hex_color(s) {
            Some(c) => Some(c),
            None => rgb_color(s),
        },
    }
}

fn same_text(cs: &Vec<char>, t: &str) -> (r: bool)
    ensures
        r == (cs@ == t@),
{
    let ts = str_chars(t);
    if ts.len() != cs.len() {
        return false;
    }
    let r = text_at(cs, 0, t);
    proof {
        if r {
            assert(cs@.subrange(0, t@.len() as int) =~= cs@);
        } else if cs@ == t@ {
            assert(cs@.subrange(0, t@.len() as int) =~= cs@);
        }
    }
    r
}

fn named_color_exec(cs: &Vec<char>) -> (r: Option<Color>)
    ensures
        r == named_color(cs@),
{
    if same_text(cs, "black") {
        Some(Color::Black)
    } else if same_text(cs, "red") {
        Some(Color::Red)
    } else if same_text(cs, "green") {
        Some(Color::Green)
    } else if same_text(cs, "yellow") {
        Some(Color::Yellow)
    } else if same_text(cs, "blue") {
        Some(Color::Blue)
    } else if same_text(cs, "magenta") {
        Some(Color::Magenta)
    } else if same_text(cs, "cyan") {
        Some(Color::Cyan)
    } else if same_text(cs, "white") {
        Some(Color::White)
    } else if same_text(cs, "none") {
        Some(Color::Reset)
    } else if same_text(cs, "lightred") {
        Some(Color::LightRed)
    } else if same_text(cs, "lightgreen") {
        Some(Color::LightGreen)
    } else if same_text(cs, "lightyellow") {
        Some(Color::LightYellow)
    } else if same_text(cs, "lightblue") {
        Some(Color::LightBlue)
    } else if same_text(cs, "lightmagenta") {
        Some(Color::LightMagenta)
    } else if same_text(cs, "lightcyan") {
        Some(Color::LightCyan)
    } else {
        None
    }
}

fn hex_digit_value(c: char) -> (r: Option<u8>)
    ensures
        r is Some <==> is_hex_digit(c),
        r matches Some(v) ==> v == hex_value(c),
{
    if '0' <= c && c <= '9' {
        Some((c as u32 - '0' as u32) as u8)
    } else if 'a' <= c && c <= 'f' {
        Some((c as u32 - 'a' as u32 + 10) as u8)
    } else if 'A' <= c && c <= 'F' {
        Some((c as u32 - 'A' as u32 + 10) as u8)
    } else {
        None
    }
}

fn hex_color_exec(cs: &Vec<char>) -> (r: Option<Color>)
    ensures
        r == hex_color(cs@),
{
    if cs.len() < 7 || cs[0] != '#' {
        return None;
    }
    let mut vals: Vec<u8> = Vec::new();
    let mut i: usize = 1;
    while i < 7
        invariant
            cs@.len() >= 7,
            1 <= i <= 7,
            vals@.len() == i - 1,
            forall|k: int| 1 <= k < i ==> is_hex_digit(#[trigger] cs@[k]),
            forall|k: int| 1 <= k < i ==> vals@[k - 1] == hex_value(#[trigger] cs@[k]),
        decreases 7 - i,
    {
        match hex_digit_value(cs[i]) {
            Some(v) => vals.push(v),
            None => return None,
        }
        i = i + 1;
    }
    proof {
        assert(vals@[0] == hex_value(cs@[1]));
        assert(vals@[1] == hex_value(cs@[2]));
        assert(vals@[2] == hex_value(cs@[3]));
        assert(vals@[3] == hex_value(cs@[4]));
        assert(vals@[4] == hex_value(cs@[5]));
        assert(vals@[5] == hex_value(cs@[6]));
    }
    let r = vals[0] * 16 + vals[1];
    let g = vals[2] * 16 + vals[3];
    let b = vals[4] * 16 + vals[5];
    Some(Color::Rgb(r, g, b))
}

fn skip_space_exec(cs: &Vec<char>, i: usize) -> (r: usize)
    requires
        i <= cs@.len(),
    ensures
        r == skip_space(cs@, i as int),
        i <= r <= cs@.len(),
    decreases cs@.len() - i,
{
    if i < cs.len() && (cs[i] == ' ' || cs[i] == '\t' || cs[i] == '\r' || cs[i] == '\n') {
        skip_space_exec(cs, i + 1)
    } else {
        i
    }
}

proof fn lemma_decimal_grows(s: Seq<char>, i: int, j: int)
    requires
        i <= j,
        forall|k: int| i <= k < j ==> is_digit(#[trigger] s[k]),
    ensures
        decimal(s, i, j) >= 0,
    decreases j - i,
{
    if j > i {
        lemma_decimal_grows(s, i, j - 1);
    }
}

fn byte_at_exec(cs: &Vec<char>, i: usize) -> (r: Option<(u8, usize)>)
    requires
        i <= cs@.len(),
    ensures
        match byte_at(cs@, i as int) {
            None => r is None,
            Some((v, j)) => r == Some((v, j as usize)),
        },
        r matches Some((_, j)) ==> i <= j <= cs@.len(),
        byte_at(cs@, i as int) matches Some((_, j)) ==> i <= j <= cs.len(),
{
    let mut j: usize = i;
    let mut v: u32 = 0;
    while j < cs.len() && '0' <= cs[j] && cs[j] <= '9'
        invariant
            i <= j <= cs@.len(),
            forall|k: int| i <= k < j ==> is_digit(#[trigger] cs@[k]),
            digits_end(cs@, i as int) == digits_end(cs@, j as int),
            v == (if decimal(cs@, i as int, j as int) > 255 {
                256
            } else {
                decimal(cs@, i as int, j as int)
            }),
        decreases cs@.len() - j,
    {
        proof {
            lemma_decimal_grows(cs@, i as int, j as int);
        }
        let d = cs[j] as u32 - '0' as u32;
        if v > 255 {
            v = 256;
        } else {
            v = v * 10 + d;
            if v > 255 {
                v = 256;
            }
        }
        j = j + 1;
    }
    proof {
        lemma_decimal_grows(cs@, i as int, j as int);
    }
    if j > i && v <= 255 {
        Some((v as u8, j))
    } else {
        None
    }
}

fn byte_then_exec(cs: &Vec<char>, i: usize, sep: char) -> (r: Option<(u8, usize)>)
    requires
        i <= cs@.len(),
    ensures
        match byte_then(cs@, i as int, sep) {
            None => r is None,
            Some((v, j)) => r == Some((v, j as usize)),
        },
{
    let a = skip_space_exec(cs, i);
    proof {
        assert(a as int == skip_space(cs@, i as int));
    }
    match byte_at_exec(cs, a) {
        None => {
            proof {
                assert(byte_at(cs@, a as int) is None);
            }
            None
        },
        Some((v, j)) => {
            proof {
                assert(byte_at(cs@, a as int) == Some((v, j as int)));
            }
            let k = skip_space_exec(cs, j);
            if k < cs.len() && cs[k] == sep {
                Some((v, k + 1))
            } else {
                None
            }
        },
    }
}

proof fn lemma_skip_space_bounds(s: Seq<char>, i: int)
    requires
        0 <= i <= s.len(),
    ensures
        i <= skip_space(s, i) <= s.len(),
    decreases s.len() - i,
{
    if i < s.len() && is_space(s[i]) {
        lemma_skip_space_bounds(s, i + 1);
    }
}

fn rgb_color_exec(cs: &Vec<char>) -> (r: Option<Color>)
    ensures
        r == rgb_color(cs@),
{
    let a = skip_space_exec(cs, 0);
    if !text_at(cs, a, "rgb") {
        return None;
    }
    let n = str_chars("rgb").len();
    assert(a + n <= cs.len());
    let b = skip_space_exec(cs, a + n);
    if !(b < cs.len() && cs[b] == '(') {
        return None;
    }
    let (r, c) = match byte_then_exec(cs, b + 1, ',') {
        None => return None,
        Some(x) => x,
    };
    proof {
        lemma_byte_then_bounds(cs@, (b + 1) as int, ',');
    }
    let (g, d) = match byte_then_exec(cs, c, ',') {
        None => return None,
        Some(x) => x,
    };
    proof {
        lemma_byte_then_bounds(cs@, c as int, ',');
    }
    match byte_then_exec(cs, d, ')') {
        None => None,
        Some((bl, _)) => Some(Color::Rgb(r, g, bl)),
    }
}

proof fn lemma_byte_then_bounds(s: Seq<char>, i: int, sep: char)
    requires
        0 <= i <= s.len(),
    ensures
        byte_then(s, i, sep) matches Some((_, j)) ==> j <= s.len(),
{
}

impl Color {
    /// Reads a colour (see `parse_color`).
    pub fn parse_color(s: &str) -> (r: Result<Color, ParseError>)
        ensures
            r matches Ok(c) ==> parse_color(s@) == Some(c),
            r is Err <==> parse_color(s@) is None,
            r matches Err(e) ==> e == ParseError::InvalidColor,
    {
        let cs = str_chars(s);
        if let Some(c) = named_color_exec(&cs) {
            return Ok(c);
        }
        if let Some(c) = hex_color_exec(&cs) {
            return Ok(c);
        }
        match rgb_color_exec(&cs) {
            Some(c) => Ok(c),
            None => Err(ParseError::InvalidColor),
        }
    }

    /// How the colour is written in the configuration (see `color_text`).
    pub fn to_text(&self) -> (r: String)
        ensures
            r@ == color_text(*self),
    {
        let s = match self {
            Color::Black => "black",
            Color::Red => "red",
            Color::Green => "green",
            Color::Yellow => "yellow",
            Color::Blue => "blue",
            Color::Magenta => "magenta",
            Color::Cyan => "cyan",
            Color::White => "white",
            Color::Reset => "none",
            Color::LightRed => "lightred",
            Color::LightGreen => "lightgreen",
            Color::LightYellow => "lightyellow",
            Color::LightBlue => "lightblue",
            Color::LightMagenta => "lightmagenta",
            Color::LightCyan => "lightcyan",
            Color::Rgb(r, g, b) => {
                return rgb_text(*r, *g, *b);
            },
        };
        crate::text::string_from_chars(str_chars(s).as_slice())
    }
}

/// The digit that writes `d`.
pub open spec fn digit_char(d: int) -> char {
    ('0' as int + d) as char
}

/// `n` written in decimal, without leading zeros.
pub open spec fn decimal_text(n: nat) -> Seq<char>
    decreases n,
{
    if n < 10 {
        seq![digit_char(n as int)]
    } else {
        decimal_text(n / 10).push(digit_char((n % 10) as int))
    }
}

/// How a colour is written in the configuration: its name, `none` for the terminal's own
/// colour, `rgb(r, g, b)` for the others.
pub open spec fn color_text(c: Color) -> Seq<char> {
    match c {
        Color::Black => "black"@,
        Color::Red => "red"@,
        Color::Green => "green"@,
        Color::Yellow => "yellow"@,
        Color::Blue => "blue"@,
        Color::Magenta => "magenta"@,
        Color::Cyan => "cyan"@,
        Color::White => "white"@,
        Color::Reset => "none"@,
        Color::LightRed => "lightred"@,
        Color::LightGreen => "lightgreen"@,
        Color::LightYellow => "lightyellow"@,
        Color::LightBlue => "lightblue"@,
        Color::LightMagenta => "lightmagenta"@,
        Color::LightCyan => "lightcyan"@,
        Color::Rgb(r, g, b) => seq!['r', 'g', 'b', '('] + decimal_text(r as nat) + seq![',', ' ']
            + decimal_text(g as nat) + seq![',', ' '] + decimal_text(b as nat) + seq![')'],
    }
}

fn push_decimal(out: &mut Vec<char>, n: u8)
    ensures
        final(out)@ == old(out)@ + decimal_text(n as nat),
{
    let ghost before = out@;
    if n >= 100 {
        out.push(((n / 100) + 48) as char);
        out.push(((n / 10 % 10) + 48) as char);
        out.push(((n % 10) + 48) as char);
        proof {
            let m = n as nat;
            assert(m / 10 / 10 == m / 100) by (nonlinear_arith);
            assert(m / 10 >= 10);
            assert(m / 100 < 10);
            assert(decimal_text(m / 10) == decimal_text(m / 10 / 10).push(digit_char((m / 10 % 10) as int)));
            assert(decimal_text(m) == decimal_text(m / 10).push(digit_char((m % 10) as int)));
            assert(out@ =~= before + decimal_text(n as nat));
        }
    } else if n >= 10 {
        let hi = ((n / 10) + 48) as char;
        let lo = ((n % 10) + 48) as char;
        out.push(hi);
        out.push(lo);
        proof {
            let m = n as nat;
            assert(m / 10 < 10);
            assert(hi == digit_char((m / 10) as int));
            assert(lo == digit_char((m % 10) as int));
            assert(decimal_text(m / 10) == seq![digit_char((m / 10) as int)]);
            assert(decimal_text(m) == decimal_text(m / 10).push(digit_char((m % 10) as int)));
            assert(out@ =~= before + decimal_text(n as nat));
        }
    } else {
        out.push((n + 48) as char);
        proof {
            assert(out@ =~= before + decimal_text(n as nat));
        }
    }
}

fn rgb_text(r: u8, g: u8, b: u8) -> (out: String)
    ensures
        out@ == color_text(Color::Rgb(r, g, b)),
{
    let mut cs: Vec<char> = Vec::new();
    cs.push('r');
    cs.push('g');
    cs.push('b');
    cs.push('(');
    push_decimal(&mut cs, r);
    cs.push(',');
    cs.push(' ');
    push_decimal(&mut cs, g);
    cs.push(',');
    cs.push(' ');
    push_decimal(&mut cs, b);
    cs.push(')');
    proof {
        assert(cs@ =~= color_text(Color::Rgb(r, g, b)));
    }
    crate::text::string_from_chars(cs.as_slice())
}

proof fn lemma_digit_char(d: int)
    requires
        0 <= d < 10,
    ensures
        is_digit(digit_char(d)),
        digit_char(d) as int - '0' as int == d,
{
}

proof fn lemma_decimal_text(n: u8)
    ensures
        1 <= decimal_text(n as nat).len() <= 3,
        forall|k: int| 0 <= k < decimal_text(n as nat).len() ==> is_digit(#[trigger] decimal_text(n as nat)[k]),
        forall|s: Seq<char>, i: int|
            0 <= i && i + decimal_text(n as nat).len() <= s.len() && s.subrange(i, i + decimal_text(n as nat).len())
                == decimal_text(n as nat) && (i + decimal_text(n as nat).len() == s.len() || !is_digit(
                s[i + decimal_text(n as nat).len()],
            )) ==> #[trigger] byte_at(s, i) == Some((n, i + decimal_text(n as nat).len())),
{
    let m = n as nat;
    let t = decimal_text(m);
    // The digits of `t`, most significant first.
    let ds: Seq<int> = if m >= 100 {
        seq![(m / 100) as int, (m / 10 % 10) as int, (m % 10) as int]
    } else if m >= 10 {
        seq![(m / 10) as int, (m % 10) as int]
    } else {
        seq![m as int]
    };
    if m >= 100 {
        assert(m / 10 / 10 == m / 100) by (nonlinear_arith);
        assert(m / 10 >= 10);
        assert(m / 100 < 10);
        assert(decimal_text(m / 10 / 10) == seq![digit_char((m / 100) as int)]);
        assert(decimal_text(m / 10) == decimal_text(m / 10 / 10).push(digit_char((m / 10 % 10) as int)));
        assert(t == decimal_text(m / 10).push(digit_char((m % 10) as int)));
        assert(((m / 100) * 10 + m / 10 % 10) * 10 + m % 10 == m) by (nonlinear_arith);
    } else if m >= 10 {
        assert(m / 10 < 10);
        assert(decimal_text(m / 10) == seq![digit_char((m / 10) as int)]);
        assert(t == decimal_text(m / 10).push(digit_char((m % 10) as int)));
        assert((m / 10) * 10 + m % 10 == m) by (nonlinear_arith);
    }
    assert(t =~= ds.map_values(|d: int| digit_char(d)));
    assert forall|k: int| 0 <= k < ds.len() implies 0 <= #[trigger] ds[k] < 10 by {
    }
    assert forall|k: int| 0 <= k < t.len() implies is_digit(#[trigger] t[k]) && t[k] as int - '0' as int == ds[k] by {
        lemma_digit_char(ds[k]);
    }
    assert forall|s: Seq<char>, i: int|
        0 <= i && i + t.len() <= s.len() && s.subrange(i, i + t.len()) == t && (i + t.len() == s.len() || !is_digit(
            s[i + t.len()],
        )) implies #[trigger] byte_at(s, i) == Some((n, i + t.len())) by {
        let e = i + t.len();
        assert forall|k: int| 0 <= k < t.len() implies s[i + k] == #[trigger] t[k] by {
            assert(s.subrange(i, e)[k] == s[i + k]);
        }
        assert(digits_end(s, e) == e);
        assert(decimal(s, i, i) == 0);
        assert(s[i] == t[0]);
        assert(is_digit(t[0]));
        if t.len() == 3 {
            assert(s[i + 1] == t[1] && s[i + 2] == t[2]);
            assert(is_digit(t[1]) && is_digit(t[2]));
            assert(digits_end(s, i + 2) == e);
            assert(digits_end(s, i + 1) == e);
            assert(digits_end(s, i) == e);
            assert(decimal(s, i, i + 1) == ds[0]);
            assert(decimal(s, i, i + 2) == ds[0] * 10 + ds[1]);
            assert(decimal(s, i, i + 3) == m);
        } else if t.len() == 2 {
            assert(s[i + 1] == t[1]);
            assert(is_digit(t[1]));
            assert(digits_end(s, i + 1) == e);
            assert(digits_end(s, i) == e);
            assert(decimal(s, i, i + 1) == ds[0]);
            assert(decimal(s, i, i + 2) == m);
        } else {
            assert(digits_end(s, i) == e);
            assert(decimal(s, i, i + 1) == m);
        }
    }
}

/// The text `rgb(r, g, b)` is read back as that colour.
#[verifier::rlimit(40)]
proof fn lemma_rgb_round_trip(r: u8, g: u8, b: u8)
    ensures
        rgb_color(color_text(Color::Rgb(r, g, b))) == Some(Color::Rgb(r, g, b)),
        color_text(Color::Rgb(r, g, b))[0] == 'r',
        color_text(Color::Rgb(r, g, b))[1] == 'g',
        color_text(Color::Rgb(r, g, b)).len() >= 11,
{
    reveal_strlit("rgb");
    let c = Color::Rgb(r, g, b);
    let s = color_text(c);
    let dr = decimal_text(r as nat);
    let dg = decimal_text(g as nat);
    let db = decimal_text(b as nat);
    lemma_decimal_text(r);
    lemma_decimal_text(g);
    lemma_decimal_text(b);
    let p1: int = 4 + dr.len() as int;
    let p2: int = p1 + 2 + dg.len();
    let p3: int = p2 + 2 + db.len();
    assert(s =~= seq!['r', 'g', 'b', '('] + dr + seq![',', ' '] + dg + seq![',', ' '] + db + seq![')']);
    assert(s.len() == p3 + 1);
    assert(s[0] == 'r' && s[1] == 'g' && s[2] == 'b' && s[3] == '(');
    assert(s.subrange(4, p1) =~= dr);
    assert(s[p1] == ',' && s[p1 + 1] == ' ');
    assert(s.subrange(p1 + 2, p2) =~= dg);
    assert(s[p2] == ',' && s[p2 + 1] == ' ');
    assert(s.subrange(p2 + 2, p3) =~= db);
    assert(s[p3] == ')');
    assert(skip_space(s, 0) == 0);
    assert(s.subrange(0, 3) =~= "rgb"@);
    assert(skip_space(s, 3) == 3);
    assert(skip_space(s, 4) == 4);
    assert(byte_at(s, 4) == Some((r, p1)));
    assert(skip_space(s, p1) == p1);
    assert(byte_then(s, 4, ',') == Some((r, p1 + 1)));
    assert(skip_space(s, p1 + 2) == p1 + 2);
    assert(skip_space(s, p1 + 1) == p1 + 2);
    assert(byte_at(s, p1 + 2) == Some((g, p2)));
    assert(skip_space(s, p2) == p2);
    assert(byte_then(s, p1 + 1, ',') == Some((g, p2 + 1)));
    assert(skip_space(s, p2 + 2) == p2 + 2);
    assert(skip_space(s, p2 + 1) == p2 + 2);
    assert(byte_at(s, p2 + 2) == Some((b, p3)));
    assert(skip_space(s, p3) == p3);
    assert(byte_then(s, p2 + 1, ')') == Some((b, p3 + 1)));
}

/// Reading back how a colour is written gives the colour.
#[verifier::rlimit(40)]
#[verifier::spinoff_prover]
pub proof fn lemma_color_round_trip(c: Color)
    ensures
        parse_color(color_text(c)) == Some(c),
{
    reveal_strlit("black");
    reveal_strlit("red");
    reveal_strlit("green");
    reveal_strlit("yellow");
    reveal_strlit("blue");
    reveal_strlit("magenta");
    reveal_strlit("cyan");
    reveal_strlit("white");
    reveal_strlit("none");
    reveal_strlit("lightred");
    reveal_strlit("lightgreen");
    reveal_strlit("lightyellow");
    reveal_strlit("lightblue");
    reveal_strlit("lightmagenta");
    reveal_strlit("lightcyan");
    match c {
        Color::Rgb(r, g, b) => {
            lemma_rgb_round_trip(r, g, b);
            let s = color_text(c);
            assert(s[1] == 'g');
            assert(named_color(s) is None);
            assert(hex_color(s) is None);
            assert(parse_color(color_text(c)) == Some(c));
        },
        Color::Black => {
            assert(parse_color(color_text(c)) == Some(c));
        },
        Color::Red => {
            assert(parse_color(color_text(c)) == Some(c));
        },
        Color::Green => {
            assert("green"@[0] != "black"@[0]);
            assert(parse_color(color_text(c)) == Some(c));
        },
        Color::Yellow => {
            assert(parse_color(color_text(c)) == Some(c));
        },
        Color::Blue => {
            assert(parse_color(color_text(c)) == Some(c));
        },
        Color::Magenta => {
            assert(parse_color(color_text(c)) == Some(c));
        },
        Color::Cyan => {
            assert("cyan"@[0] != "blue"@[0]);
            assert(parse_color(color_text(c)) == Some(c));
        },
        Color::White => {
            assert("white"@[0] != "black"@[0]);
            assert("white"@[0] != "green"@[0]);
            assert(parse_color(color_text(c)) == Some(c));
        },
        Color::Reset => {
            assert("none"@[0] != "blue"@[0]);
            assert("none"@[0] != "cyan"@[0]);
            assert(parse_color(color_text(c)) == Some(c));
        },
        Color::LightRed => {
            assert(parse_color(color_text(c)) == Some(c));
        },
        Color::LightGreen => {
            assert(parse_color(color_text(c)) == Some(c));
        },
        Color::LightYellow => {
            assert(parse_color(color_text(c)) == Some(c));
        },
        Color::LightBlue => {
            assert(parse_color(color_text(c)) == Some(c));
        },
        Color::LightMagenta => {
            assert(parse_color(color_text(c)) == Some(c));
        },
        Color::LightCyan => {
            assert("lightcyan"@[5] != "lightblue"@[5]);
            assert(parse_color(color_text(c)) == Some(c));
        },
    }
}

/// Each colour name reads as its own colour, which is written back by that name: `black`,
/// `red`, `green`, `yellow`, `blue`, `magenta`, `cyan`, `white`, their `light` forms but
/// for black and white, and `none` for the terminal's own colour.
pub proof fn lemma_color_names()
    ensures
        parse_color("black"@) == Some(Color::Black),
        color_text(Color::Black) == "black"@,
        parse_color("red"@) == Some(Color::Red),
        color_text(Color::Red) == "red"@,
        parse_color("green"@) == Some(Color::Green),
        color_text(Color::Green) == "green"@,
        parse_color("yellow"@) == Some(Color::Yellow),
        color_text(Color::Yellow) == "yellow"@,
        parse_color("blue"@) == Some(Color::Blue),
        color_text(Color::Blue) == "blue"@,
        parse_color("magenta"@) == Some(Color::Magenta),
        color_text(Color::Magenta) == "magenta"@,
        parse_color("cyan"@) == Some(Color::Cyan),
        color_text(Color::Cyan) == "cyan"@,
        parse_color("white"@) == Some(Color::White),
        color_text(Color::White) == "white"@,
        parse_color("none"@) == Some(Color::Reset),
        color_text(Color::Reset) == "none"@,
        parse_color("lightred"@) == Some(Color::LightRed),
        color_text(Color::LightRed) == "lightred"@,
        parse_color("lightgreen"@) == Some(Color::LightGreen),
        color_text(Color::LightGreen) == "lightgreen"@,
        parse_color("lightyellow"@) == Some(Color::LightYellow),
        color_text(Color::LightYellow) == "lightyellow"@,
        parse_color("lightblue"@) == Some(Color::LightBlue),
        color_text(Color::LightBlue) == "lightblue"@,
        parse_color("lightmagenta"@) == Some(Color::LightMagenta),
        color_text(Color::LightMagenta) == "lightmagenta"@,
        parse_color("lightcyan"@) == Some(Color::LightCyan),
        color_text(Color::LightCyan) == "lightcyan"@,
{
    lemma_color_round_trip(Color::Black);
    lemma_color_round_trip(Color::Red);
    lemma_color_round_trip(Color::Green);
    lemma_color_round_trip(Color::Yellow);
    lemma_color_round_trip(Color::Blue);
    lemma_color_round_trip(Color::Magenta);
    lemma_color_round_trip(Color::Cyan);
    lemma_color_round_trip(Color::White);
    lemma_color_round_trip(Color::Reset);
    lemma_color_round_trip(Color::LightRed);
    lemma_color_round_trip(Color::LightGreen);
    lemma_color_round_trip(Color::LightYellow);
    lemma_color_round_trip(Color::LightBlue);
    lemma_color_round_trip(Color::LightMagenta);
    lemma_color_round_trip(Color::LightCyan);
}

impl std::str::FromStr for Color {
    type Err = ParseError;

    /// Reads a colour (see `parse_color`).
    fn from_str(s: &str) -> (r: Result<Color, ParseError>)
        ensures
            r matches Ok(c) ==> parse_color(s@) == Some(c),
            r is Err <==> parse_color(s@) is None,
            r matches Err(e) ==> e == ParseError::InvalidColor,
    {
        Color::parse_color(s)
    }
}

} // verus!
