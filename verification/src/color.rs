//! Colours: parsing colour names, 256-colour indices and RGB values, and the
//! ANSI escape sequences that select them.

use vstd::prelude::*;
use vstd::string::*;
use crate::text::{chars_of, push_decimal, decimal, unsigned_digits, hex_digit_value, hex_digit, char_index_at_byte, char_index_at, utf8_len, utf8_len_of, byte_len, slice_chars, lemma_char_index_bound, split_at_char, split_chars, trim, trimmed, parse_unsigned, parse_unsigned_chars, has_prefix, starts_with, lowercase, to_lowercase_text, same_text, string_of};

verus! {

/// A colour: the terminal's default, an index into the 256-colour palette,
/// or a true-colour RGB value.
#[derive(Debug, Clone, Copy, PartialEq, Eq, Structural)]
pub enum ColorSpec {
    Default,
    EightBit(u8),
    Rgb(u8, u8, u8),
}

impl Default for ColorSpec {
    fn default() -> (c: Self)
        ensures
            c == ColorSpec::Default,
    {
        ColorSpec::Default
    }
}

/// The escape sequence that selects `c` as foreground colour.
pub open spec fn ansi_fg(c: ColorSpec) -> Seq<char> {
    match c {
        ColorSpec::Default => Seq::empty(),
        ColorSpec::EightBit(n) => "\x1b[38;5;"@ + decimal(n as nat) + "m"@,
        ColorSpec::Rgb(r, g, b) => "\x1b[38;2;"@ + decimal(r as nat) + ";"@ + decimal(g as nat)
            + ";"@ + decimal(b as nat) + "m"@,
    }
}

/// The escape sequence that selects `c` as background colour.
pub open spec fn ansi_bg(c: ColorSpec) -> Seq<char> {
    match c {
        ColorSpec::Default => Seq::empty(),
        ColorSpec::EightBit(n) => "\x1b[48;5;"@ + decimal(n as nat) + "m"@,
        ColorSpec::Rgb(r, g, b) => "\x1b[48;2;"@ + decimal(r as nat) + ";"@ + decimal(g as nat)
            + ";"@ + decimal(b as nat) + "m"@,
    }
}

impl ColorSpec {
    /// The escape sequence for this colour as foreground.
    pub fn to_ansi_fg(self) -> (s: String)
        ensures
            s@ == ansi_fg(self),
    {
        let mut s = String::new();
        match self {
            ColorSpec::Default => {},
            ColorSpec::EightBit(n) => {
                s.append("\x1b[38;5;");
                push_decimal(&mut s, n as usize);
                s.append("m");
            },
            ColorSpec::Rgb(r, g, b) => {
                s.append("\x1b[38;2;");
                push_decimal(&mut s, r as usize);
                s.append(";");
                push_decimal(&mut s, g as usize);
                s.append(";");
                push_decimal(&mut s, b as usize);
                s.append("m");
            },
        }
        assert(s@ =~= ansi_fg(self));
        s
    }

    /// The escape sequence for this colour as background.
    pub fn to_ansi_bg(self) -> (s: String)
        ensures
            s@ == ansi_bg(self),
    {
        let mut s = String::new();
        match self {
            ColorSpec::Default => {},
            ColorSpec::EightBit(n) => {
                s.append("\x1b[48;5;");
                push_decimal(&mut s, n as usize);
                s.append("m");
            },
            ColorSpec::Rgb(r, g, b) => {
                s.append("\x1b[48;2;");
                push_decimal(&mut s, r as usize);
                s.append(";");
                push_decimal(&mut s, g as usize);
                s.append(";");
                push_decimal(&mut s, b as usize);
                s.append("m");
            },
        }
        assert(s@ =~= ansi_bg(self));
        s
    }

    /// Whether this is the terminal's default colour.
    pub fn is_default(self) -> (b: bool)
        ensures
            b == (self == ColorSpec::Default),
    {
        match self {
            ColorSpec::Default => true,
            _ => false,
        }
    }
}

} // verus!

verus! {

// ---------------------------------------------------------------------------
// Hexadecimal colours
// ---------------------------------------------------------------------------

pub open spec fn all_hex(s: Seq<char>) -> bool {
    forall|i: int| 0 <= i < s.len() ==> (#[trigger] hex_digit_value(s[i])) is Some
}

/// The value of a string of hexadecimal digits.
pub open spec fn hex_value(s: Seq<char>) -> nat
    decreases s.len(),
{
    if s.len() == 0 {
        0
    } else {
        hex_value(s.drop_last()) * 16 + hex_digit_value(s.last()).unwrap()
    }
}

/// What `u8::from_str_radix(t, 16)` gives: one optional `'+'`, then at least
/// one hexadecimal digit, with a value below 256.
pub open spec fn radix16_u8(t: Seq<char>) -> Option<u8> {
    let d = unsigned_digits(t);
    if d.len() > 0 && all_hex(d) && hex_value(d) <= 255 {
        Some(hex_value(d) as u8)
    } else {
        None
    }
}

/// The byte range `a..b` of `hex`, parsed as a hexadecimal byte. `None`
/// when it is not one, which is also so when the range does not fall on
/// character boundaries (no text lies between such offsets).
pub open spec fn hex_piece(hex: Seq<char>, a: int, b: int) -> Option<u8> {
    match (char_index_at_byte(hex, a), char_index_at_byte(hex, b)) {
        (Some(i), Some(j)) => radix16_u8(hex.subrange(i, j)),
        _ => None,
    }
}

/// The colour that `hex` (the text after `'#'`) gives as `RGB` (each digit
/// scaled by 17) or `RRGGBB`, read by its byte length; `None` when it is not
/// such a colour.
pub open spec fn hex_color_outcome(hex: Seq<char>) -> Option<(u8, u8, u8)> {
    let n = byte_len(hex);
    if n == 3 {
        match (hex_piece(hex, 0, 1), hex_piece(hex, 1, 2), hex_piece(hex, 2, 3)) {
            (Some(r), Some(g), Some(b)) => Some(((r * 17) as u8, (g * 17) as u8, (b * 17) as u8)),
            _ => None,
        }
    } else if n == 6 {
        match (hex_piece(hex, 0, 2), hex_piece(hex, 2, 4), hex_piece(hex, 4, 6)) {
            (Some(r), Some(g), Some(b)) => Some((r, g, b)),
            _ => None,
        }
    } else {
        None
    }
}

/// Reads a hexadecimal byte of at most two characters.
fn radix16_short(p: &[char]) -> (r: Option<u8>)
    requires
        p@.len() <= 2,
    ensures
        r == radix16_u8(p@),
{
    let ghost d = unsigned_digits(p@);
    if p.len() == 0 {
        return None;
    }
    if p.len() == 1 {
        if p[0] == '+' {
            assert(d.len() == 0);
            return None;
        }
        assert(d =~= p@);
        assert(d.drop_last() =~= Seq::<char>::empty());
        assert(d.last() == p@[0]);
        let h = hex_digit(p[0]);
        match h {
            Some(x) => {
                assert(hex_value(d.drop_last()) == 0);
                assert(hex_value(d) == hex_value(d.drop_last()) * 16 + hex_digit_value(
                    d.last(),
                ).unwrap());
                assert(hex_value(d) == x);
                return Some(x);
            },
            None => {
                assert(!all_hex(d));
                return None;
            },
        }
    }
    if p[0] == '+' {
        assert(d =~= seq![p@[1]]);
        assert(d.drop_last() =~= Seq::<char>::empty());
        assert(d.last() == p@[1]);
        let h = hex_digit(p[1]);
        match h {
            Some(x) => {
                assert(hex_value(d.drop_last()) == 0);
                assert(hex_value(d) == hex_value(d.drop_last()) * 16 + hex_digit_value(
                    d.last(),
                ).unwrap());
                assert(hex_value(d) == x);
                return Some(x);
            },
            None => {
                assert(!all_hex(d));
                return None;
            },
        }
    }
    assert(d =~= p@);
    assert(d.drop_last() =~= seq![p@[0]]);
    assert(d.drop_last().drop_last() =~= Seq::<char>::empty());
    let hi = hex_digit(p[0]);
    let lo = hex_digit(p[1]);
    match (hi, lo) {
        (Some(x), Some(y)) => {
            assert(hex_value(d.drop_last().drop_last()) == 0);
            assert(d.drop_last().last() == p@[0]);
            assert(d.last() == p@[1]);
            assert(hex_value(d.drop_last()) == x);
            assert(hex_value(d) == x * 16 + y);
            Some(x * 16 + y)
        },
        (None, _) => {
            assert(hex_digit_value(d[0]) is None);
            None
        },
        (_, None) => {
            assert(hex_digit_value(d[1]) is None);
            None
        },
    }
}

fn hex_piece_exec(hex: &[char], a: usize, b: usize) -> (r: Option<u8>)
    requires
        a < b <= a + 2,
    ensures
        r == hex_piece(hex@, a as int, b as int),
{
    let i = char_index_at(hex, a);
    let j = char_index_at(hex, b);
    match (i, j) {
        (Some(i), Some(j)) => {
            proof {
                lemma_char_index_order(hex@, a as int, b as int);
            }
            let piece = slice_chars(hex, i, j);
            radix16_short(&piece)
        },
        _ => None,
    }
}

proof fn lemma_char_index_order(s: Seq<char>, a: int, b: int)
    requires
        0 <= a < b <= a + 2,
        char_index_at_byte(s, a) is Some,
        char_index_at_byte(s, b) is Some,
    ensures
        char_index_at_byte(s, a).unwrap() < char_index_at_byte(s, b).unwrap(),
        char_index_at_byte(s, b).unwrap() - char_index_at_byte(s, a).unwrap() <= b - a,
    decreases s.len(),
{
    if a > 0 {
        lemma_char_index_order(s.drop_first(), a - utf8_len(s[0]), b - utf8_len(s[0]));
    } else {
        lemma_char_index_small(s, b);
    }
}

proof fn lemma_char_index_small(s: Seq<char>, b: int)
    requires
        0 < b,
        char_index_at_byte(s, b) is Some,
    ensures
        0 < char_index_at_byte(s, b).unwrap() <= b,
    decreases s.len(),
{
    assert(s.len() > 0);
    let u = utf8_len(s[0]);
    assert(b >= u);
    assert(char_index_at_byte(s, b) == match char_index_at_byte(s.drop_first(), b - u) {
        Some(i) => Some(i + 1),
        None => None,
    });
    if b - u > 0 {
        lemma_char_index_small(s.drop_first(), b - u);
    }
}

/// Byte length of `v`, when it is at most `limit`; `None` when longer.
fn byte_len_upto(v: &[char], limit: usize) -> (r: Option<usize>)
    ensures
        r matches Some(n) ==> n == byte_len(v@) && n <= limit,
        r is None ==> byte_len(v@) > limit,
{
    let mut n: usize = 0;
    let mut i: usize = v.len();
    assert(v@.skip(v@.len() as int) =~= Seq::<char>::empty());
    while i > 0
        invariant
            i <= v@.len(),
            n <= limit,
            n == byte_len(v@.skip(i as int)),
        decreases i,
    {
        let u = utf8_len_of(v[i - 1]);
        assert(v@.skip(i - 1).drop_first() =~= v@.skip(i as int));
        if u > limit - n {
            proof {
                lemma_byte_len_suffix(v@, i - 1);
            }
            return None;
        }
        n = n + u;
        i = i - 1;
    }
    assert(v@.skip(0) =~= v@);
    Some(n)
}

proof fn lemma_byte_len_suffix(s: Seq<char>, i: int)
    requires
        0 <= i <= s.len(),
    ensures
        byte_len(s.skip(i)) <= byte_len(s),
    decreases i,
{
    if i > 0 {
        lemma_byte_len_suffix(s.drop_first(), i - 1);
        assert(s.drop_first().skip(i - 1) =~= s.skip(i));
        assert(byte_len(s) == utf8_len(s[0]) + byte_len(s.drop_first()));
    } else {
        assert(s.skip(0) =~= s);
    }
}

/// Computes `hex_color_outcome`.
pub fn hex_color_outcome_exec(hex: &[char]) -> (r: Option<(u8, u8, u8)>)
    ensures
        r == hex_color_outcome(hex@),
{
    let n = byte_len_upto(hex, 6);
    match n {
        Some(3) => {
            match (hex_piece_exec(hex, 0, 1), hex_piece_exec(hex, 1, 2), hex_piece_exec(hex, 2, 3)) {
                (Some(r), Some(g), Some(b)) => {
                    proof {
                        lemma_single_hex_digit(hex@, 0, 1);
                        lemma_single_hex_digit(hex@, 1, 2);
                        lemma_single_hex_digit(hex@, 2, 3);
                    }
                    Some((r * 17, g * 17, b * 17))
                },
                _ => None,
            }
        },
        Some(6) => {
            match (hex_piece_exec(hex, 0, 2), hex_piece_exec(hex, 2, 4), hex_piece_exec(hex, 4, 6)) {
                (Some(r), Some(g), Some(b)) => Some((r, g, b)),
                _ => None,
            }
        },
        _ => None,
    }
}

/// A one-byte piece that reads as a number holds one hexadecimal digit, so
/// its value is below 16.
proof fn lemma_single_hex_digit(hex: Seq<char>, a: int, b: int)
    requires
        0 <= a,
        b == a + 1,
        hex_piece(hex, a, b) is Some,
    ensures
        hex_piece(hex, a, b)->0 < 16,
{
    assert(char_index_at_byte(hex, a) is Some && char_index_at_byte(hex, b) is Some);
    lemma_char_index_order(hex, a, b);
    lemma_char_index_bound(hex, b);
    lemma_char_index_bound(hex, a);
    let i = char_index_at_byte(hex, a).unwrap();
    let j = char_index_at_byte(hex, b).unwrap();
    let t = hex.subrange(i, j);
    assert(t.len() == 1);
    let d = unsigned_digits(t);
    if t[0] == '+' {
        assert(d.len() == 0);
    } else {
        assert(d =~= t);
        assert(d.drop_last() =~= Seq::<char>::empty());
        assert(d.last() == t[0]);
        assert(hex_value(d.drop_last()) == 0);
        assert(hex_value(d) == hex_value(d.drop_last()) * 16 + hex_digit_value(d.last()).unwrap());
    }
}

/// Parses `"RGB"` or `"RRGGBB"` (the text after `'#'`). `RGB` digits are
/// scaled by 17, so `"444"` and `"444444"` name the same colour.
pub fn parse_hex_color(hex: &str) -> (r: Option<(u8, u8, u8)>)
    ensures
        r == hex_color_outcome(hex@),
{
    let v = chars_of(hex);
    hex_color_outcome_exec(&v)
}

} // verus!

verus! {

// ---------------------------------------------------------------------------
// Colour names and the full colour syntax
// ---------------------------------------------------------------------------

/// Reads `"r,g,b"`: exactly three comma-separated decimal bytes, each of
/// which may be surrounded by white space.
pub open spec fn spec_rgb_func(inner: Seq<char>) -> Option<(u8, u8, u8)> {
    let parts = split_at_char(inner, ',');
    if parts.len() == 3 {
        match (
            parse_unsigned(trim(parts[0]), 255),
            parse_unsigned(trim(parts[1]), 255),
            parse_unsigned(trim(parts[2]), 255),
        ) {
            (Some(r), Some(g), Some(b)) => Some((r as u8, g as u8, b as u8)),
            _ => None,
        }
    } else {
        None
    }
}

/// Parses the inside of `rgb(...)`.
pub fn parse_rgb_func(inner: &str) -> (r: Option<(u8, u8, u8)>)
    ensures
        r == spec_rgb_func(inner@),
{
    let v = chars_of(inner);
    rgb_func_chars(&v)
}

fn rgb_func_chars(v: &[char]) -> (r: Option<(u8, u8, u8)>)
    ensures
        r == spec_rgb_func(v@),
{
    let parts = split_chars(v, ',');
    if parts.len() != 3 {
        return None;
    }
    assert(parts[0]@ == split_at_char(v@, ',')[0]);
    assert(parts[1]@ == split_at_char(v@, ',')[1]);
    assert(parts[2]@ == split_at_char(v@, ',')[2]);
    let t0 = trimmed(&parts[0]);
    let t1 = trimmed(&parts[1]);
    let t2 = trimmed(&parts[2]);
    let r = parse_unsigned_chars(&t0, 255);
    let g = parse_unsigned_chars(&t1, 255);
    let b = parse_unsigned_chars(&t2, 255);
    match (r, g, b) {
        (Some(r), Some(g), Some(b)) => Some((r as u8, g as u8, b as u8)),
        _ => None,
    }
}

/// The colour that a (lower-case) colour name stands for; names that are
/// not known stand for the default colour.
pub open spec fn named_color(lower: Seq<char>) -> ColorSpec {
    if lower == "none"@ || lower == "default"@ || lower == "reset"@ {
        ColorSpec::Default
    } else if lower == "accent"@ || lower == "primary"@ {
        ColorSpec::EightBit(39)
    } else if lower == "secondary"@ {
        ColorSpec::EightBit(75)
    } else if lower == "tertiary"@ {
        ColorSpec::EightBit(141)
    } else if lower == "muted"@ || lower == "quaternary"@ {
        ColorSpec::EightBit(245)
    } else if lower == "dim"@ || lower == "dimmed"@ {
        ColorSpec::EightBit(240)
    } else if lower == "black"@ {
        ColorSpec::EightBit(0)
    } else if lower == "red"@ || lower == "error"@ || lower == "warning"@ {
        ColorSpec::EightBit(196)
    } else if lower == "green"@ || lower == "success"@ || lower == "ok"@ {
        ColorSpec::EightBit(82)
    } else if lower == "yellow"@ {
        ColorSpec::EightBit(226)
    } else if lower == "blue"@ {
        ColorSpec::EightBit(33)
    } else if lower == "magenta"@ {
        ColorSpec::EightBit(201)
    } else if lower == "cyan"@ {
        ColorSpec::EightBit(51)
    } else if lower == "white"@ {
        ColorSpec::EightBit(15)
    } else if lower == "orange"@ {
        ColorSpec::EightBit(208)
    } else if lower == "gray"@ || lower == "grey"@ {
        ColorSpec::EightBit(244)
    } else if lower == "pink"@ {
        ColorSpec::EightBit(213)
    } else if lower == "purple"@ {
        ColorSpec::EightBit(135)
    } else {
        ColorSpec::Default
    }
}

/// The colour for a lower-case colour name.
pub fn color_for_name(lower: &str) -> (c: ColorSpec)
    ensures
        c == named_color(lower@),
{
    if same_text(lower, "none") || same_text(lower, "default") || same_text(lower, "reset") {
        ColorSpec::Default
    } else if same_text(lower, "accent") || same_text(lower, "primary") {
        ColorSpec::EightBit(39)
    } else if same_text(lower, "secondary") {
        ColorSpec::EightBit(75)
    } else if same_text(lower, "tertiary") {
        ColorSpec::EightBit(141)
    } else if same_text(lower, "muted") || same_text(lower, "quaternary") {
        ColorSpec::EightBit(245)
    } else if same_text(lower, "dim") || same_text(lower, "dimmed") {
        ColorSpec::EightBit(240)
    } else if same_text(lower, "black") {
        ColorSpec::EightBit(0)
    } else if same_text(lower, "red") || same_text(lower, "error") || same_text(lower, "warning") {
        ColorSpec::EightBit(196)
    } else if same_text(lower, "green") || same_text(lower, "success") || same_text(lower, "ok") {
        ColorSpec::EightBit(82)
    } else if same_text(lower, "yellow") {
        ColorSpec::EightBit(226)
    } else if same_text(lower, "blue") {
        ColorSpec::EightBit(33)
    } else if same_text(lower, "magenta") {
        ColorSpec::EightBit(201)
    } else if same_text(lower, "cyan") {
        ColorSpec::EightBit(51)
    } else if same_text(lower, "white") {
        ColorSpec::EightBit(15)
    } else if same_text(lower, "orange") {
        ColorSpec::EightBit(208)
    } else if same_text(lower, "gray") || same_text(lower, "grey") {
        ColorSpec::EightBit(244)
    } else if same_text(lower, "pink") {
        ColorSpec::EightBit(213)
    } else if same_text(lower, "purple") {
        ColorSpec::EightBit(135)
    } else {
        ColorSpec::Default
    }
}

/// `t` (already trimmed) written as `rgb(r,g,b)`.
pub open spec fn rgb_call(t: Seq<char>) -> Option<(u8, u8, u8)> {
    if has_prefix(t, "rgb("@) && t.len() > "rgb("@.len() && t.last() == ')' {
        spec_rgb_func(t.subrange("rgb("@.len() as int, t.len() - 1))
    } else {
        None
    }
}

/// The colour of a trimmed colour text that is not a hexadecimal colour:
/// `rgb(r,g,b)`, then a palette index `0`..`255`, then a colour name, whose
/// case does not matter.
pub open spec fn color_after_hex(t: Seq<char>) -> ColorSpec {
    match rgb_call(t) {
        Some((r, g, b)) => ColorSpec::Rgb(r, g, b),
        None => match parse_unsigned(t, 255) {
            Some(n) => ColorSpec::EightBit(n as u8),
            None => named_color(lowercase(t)),
        },
    }
}

/// The colour that a colour text stands for, after trimming white space:
/// `#RGB`/`#RRGGBB`, `rgb(r,g,b)`, a palette index, or a name; the default
/// colour for a text that is none of these.
pub open spec fn spec_parse_color(name: Seq<char>) -> ColorSpec {
    let t = trim(name);
    let hex: Option<(u8, u8, u8)> = if t.len() > 0 && t[0] == '#' {
        hex_color_outcome(t.drop_first())
    } else {
        None
    };
    match hex {
        Some((r, g, b)) => ColorSpec::Rgb(r, g, b),
        None => color_after_hex(t),
    }
}

/// Computes `spec_parse_color`.
pub fn parse_color_chars(name: &[char]) -> (r: ColorSpec)
    ensures
        r == spec_parse_color(name@),
{
    let t = trimmed(name);
    if t.len() > 0 && t[0] == '#' {
        let rest = slice_chars(&t, 1, t.len());
        assert(rest@ =~= t@.drop_first());
        match hex_color_outcome_exec(&rest) {
            Some((r, g, b)) => return ColorSpec::Rgb(r, g, b),
            None => {},
        }
    }
    color_after_hex_chars(&t)
}

fn color_after_hex_chars(t: &[char]) -> (c: ColorSpec)
    ensures
        c == color_after_hex(t@),
{
    proof {
        reveal_strlit("rgb(");
    }
    if starts_with(t, "rgb(") && t.len() > 4 && t[t.len() - 1] == ')' {
        let inner = slice_chars(t, 4, t.len() - 1);
        match rgb_func_chars(&inner) {
            Some((r, g, b)) => return ColorSpec::Rgb(r, g, b),
            None => {},
        }
    }
    match parse_unsigned_chars(t, 255) {
        Some(n) => ColorSpec::EightBit(n as u8),
        None => {
            let s = string_of(t);
            let lower = to_lowercase_text(s.as_str());
            color_for_name(lower.as_str())
        },
    }
}

/// Parses a colour text (see `spec_parse_color`).
pub fn parse_color_spec(name: &str) -> (c: ColorSpec)
    ensures
        c == spec_parse_color(name@),
{
    let v = chars_of(name);
    parse_color_chars(&v)
}

} // verus!

verus! {

/// A three-digit colour `#abc` is the six-digit colour `#aabbcc`, and both
/// read as a true colour.
pub proof fn law_short_hex_doubles_digits(a: char, b: char, c: char)
    requires
        hex_digit_value(a) is Some,
        hex_digit_value(b) is Some,
        hex_digit_value(c) is Some,
    ensures
        hex_color_outcome(seq![a, b, c]) == hex_color_outcome(seq![a, a, b, b, c, c]),
        hex_color_outcome(seq![a, b, c]) is Some,
        spec_parse_color(seq!['#', a, b, c]) == spec_parse_color(seq!['#', a, a, b, b, c, c]),
        spec_parse_color(seq!['#', a, b, c]) is Rgb,
{
    let h3 = seq!['#', a, b, c];
    let h6 = seq!['#', a, a, b, b, c, c];
    assert(crate::text::trim_start(h3) == h3);
    assert(crate::text::trim_start(h6) == h6);
    assert(crate::text::trim_end(h3) == h3);
    assert(crate::text::trim_end(h6) == h6);
    assert(h3.drop_first() =~= seq![a, b, c]);
    assert(h6.drop_first() =~= seq![a, a, b, b, c, c]);
    let s3 = seq![a, b, c];
    let s6 = seq![a, a, b, b, c, c];
    lemma_ascii_hex(a);
    lemma_ascii_hex(b);
    lemma_ascii_hex(c);
    lemma_ascii_byte_positions(s3);
    lemma_ascii_byte_positions(s6);
    assert(s3.subrange(0, 1) =~= seq![a]);
    assert(s3.subrange(1, 2) =~= seq![b]);
    assert(s3.subrange(2, 3) =~= seq![c]);
    assert(s6.subrange(0, 2) =~= seq![a, a]);
    assert(s6.subrange(2, 4) =~= seq![b, b]);
    assert(s6.subrange(4, 6) =~= seq![c, c]);
    lemma_one_digit(a);
    lemma_one_digit(b);
    lemma_one_digit(c);
    lemma_two_digits(a);
    lemma_two_digits(b);
    lemma_two_digits(c);
}

proof fn lemma_ascii_hex(c: char)
    requires
        hex_digit_value(c) is Some,
    ensures
        utf8_len(c) == 1,
        c != '+',
        hex_digit_value(c)->0 < 16,
{
}

/// In an all-ASCII text every byte offset up to its length is the start of
/// the character with that index.
proof fn lemma_ascii_byte_positions(s: Seq<char>)
    requires
        forall|i: int| 0 <= i < s.len() ==> utf8_len(#[trigger] s[i]) == 1,
    ensures
        byte_len(s) == s.len(),
        forall|k: int| 0 <= k <= s.len() ==> #[trigger] char_index_at_byte(s, k) == Some(k),
    decreases s.len(),
{
    if s.len() > 0 {
        let t = s.drop_first();
        assert forall|i: int| 0 <= i < t.len() implies utf8_len(#[trigger] t[i]) == 1 by {
            assert(t[i] == s[i + 1]);
        }
        lemma_ascii_byte_positions(t);
        assert forall|k: int| 0 <= k <= s.len() implies #[trigger] char_index_at_byte(s, k) == Some(k) by {
            if k > 0 {
                assert(char_index_at_byte(t, k - 1) == Some(k - 1));
            }
        }
    }
}

proof fn lemma_one_digit(a: char)
    requires
        hex_digit_value(a) is Some,
        a != '+',
    ensures
        radix16_u8(seq![a]) == Some(hex_digit_value(a)->0 as u8),
{
    let d = unsigned_digits(seq![a]);
    assert(d =~= seq![a]);
    assert(d.drop_last() =~= Seq::<char>::empty());
    assert(hex_value(d.drop_last()) == 0);
    assert(d.last() == a);
}

proof fn lemma_two_digits(a: char)
    requires
        hex_digit_value(a) is Some,
        a != '+',
        hex_digit_value(a)->0 < 16,
    ensures
        radix16_u8(seq![a, a]) == Some((hex_digit_value(a)->0 * 17) as u8),
{
    let d = unsigned_digits(seq![a, a]);
    assert(d =~= seq![a, a]);
    assert(d.drop_last() =~= seq![a]);
    assert(d.drop_last().drop_last() =~= Seq::<char>::empty());
    assert(hex_value(d.drop_last().drop_last()) == 0);
    assert(d.last() == a);
    assert(d.drop_last().last() == a);
    assert(hex_value(d.drop_last()) == hex_digit_value(a)->0);
    assert(hex_value(d) == hex_digit_value(a)->0 * 16 + hex_digit_value(a)->0);
}

} // verus!

verus! {

/// Whether `c` is an ASCII letter.
pub open spec fn ascii_letter(c: char) -> bool {
    ('a' <= c && c <= 'z') || ('A' <= c && c <= 'Z')
}

/// The colour names and the palette colours they stand for: each name of
/// the table reads as its colour, and the names of the default colour read
/// as the default colour.
pub proof fn law_color_names()
    ensures
        named_color("none"@) == ColorSpec::Default,
        named_color("default"@) == ColorSpec::Default,
        named_color("reset"@) == ColorSpec::Default,
        named_color("accent"@) == ColorSpec::EightBit(39),
        named_color("primary"@) == ColorSpec::EightBit(39),
        named_color("secondary"@) == ColorSpec::EightBit(75),
        named_color("tertiary"@) == ColorSpec::EightBit(141),
        named_color("muted"@) == ColorSpec::EightBit(245),
        named_color("quaternary"@) == ColorSpec::EightBit(245),
        named_color("dim"@) == ColorSpec::EightBit(240),
        named_color("dimmed"@) == ColorSpec::EightBit(240),
        named_color("black"@) == ColorSpec::EightBit(0),
        named_color("red"@) == ColorSpec::EightBit(196),
        named_color("error"@) == ColorSpec::EightBit(196),
        named_color("warning"@) == ColorSpec::EightBit(196),
        named_color("green"@) == ColorSpec::EightBit(82),
        named_color("success"@) == ColorSpec::EightBit(82),
        named_color("ok"@) == ColorSpec::EightBit(82),
        named_color("yellow"@) == ColorSpec::EightBit(226),
        named_color("blue"@) == ColorSpec::EightBit(33),
        named_color("magenta"@) == ColorSpec::EightBit(201),
        named_color("cyan"@) == ColorSpec::EightBit(51),
        named_color("white"@) == ColorSpec::EightBit(15),
        named_color("orange"@) == ColorSpec::EightBit(208),
        named_color("gray"@) == ColorSpec::EightBit(244),
        named_color("grey"@) == ColorSpec::EightBit(244),
        named_color("pink"@) == ColorSpec::EightBit(213),
        named_color("purple"@) == ColorSpec::EightBit(135),
{
    reveal_strlit("none");
    assert("none"@.len() == 4 && "none"@[0] == 'n' && "none"@[1] == 'o' && "none"@[2] == 'n');
    reveal_strlit("default");
    assert("default"@.len() == 7 && "default"@[0] == 'd' && "default"@[1] == 'e' && "default"@[2] == 'f');
    reveal_strlit("reset");
    assert("reset"@.len() == 5 && "reset"@[0] == 'r' && "reset"@[1] == 'e' && "reset"@[2] == 's');
    reveal_strlit("accent");
    assert("accent"@.len() == 6 && "accent"@[0] == 'a' && "accent"@[1] == 'c' && "accent"@[2] == 'c');
    reveal_strlit("primary");
    assert("primary"@.len() == 7 && "primary"@[0] == 'p' && "primary"@[1] == 'r' && "primary"@[2] == 'i');
    reveal_strlit("secondary");
    assert("secondary"@.len() == 9 && "secondary"@[0] == 's' && "secondary"@[1] == 'e' && "secondary"@[2] == 'c');
    reveal_strlit("tertiary");
    assert("tertiary"@.len() == 8 && "tertiary"@[0] == 't' && "tertiary"@[1] == 'e' && "tertiary"@[2] == 'r');
    reveal_strlit("muted");
    assert("muted"@.len() == 5 && "muted"@[0] == 'm' && "muted"@[1] == 'u' && "muted"@[2] == 't');
    reveal_strlit("quaternary");
    assert("quaternary"@.len() == 10 && "quaternary"@[0] == 'q' && "quaternary"@[1] == 'u' && "quaternary"@[2] == 'a');
    reveal_strlit("dim");
    assert("dim"@.len() == 3 && "dim"@[0] == 'd' && "dim"@[1] == 'i' && "dim"@[2] == 'm');
    reveal_strlit("dimmed");
    assert("dimmed"@.len() == 6 && "dimmed"@[0] == 'd' && "dimmed"@[1] == 'i' && "dimmed"@[2] == 'm');
    reveal_strlit("black");
    assert("black"@.len() == 5 && "black"@[0] == 'b' && "black"@[1] == 'l' && "black"@[2] == 'a');
    reveal_strlit("red");
    assert("red"@.len() == 3 && "red"@[0] == 'r' && "red"@[1] == 'e' && "red"@[2] == 'd');
    reveal_strlit("error");
    assert("error"@.len() == 5 && "error"@[0] == 'e' && "error"@[1] == 'r' && "error"@[2] == 'r');
    reveal_strlit("warning");
    assert("warning"@.len() == 7 && "warning"@[0] == 'w' && "warning"@[1] == 'a' && "warning"@[2] == 'r');
    reveal_strlit("green");
    assert("green"@.len() == 5 && "green"@[0] == 'g' && "green"@[1] == 'r' && "green"@[2] == 'e');
    reveal_strlit("success");
    assert("success"@.len() == 7 && "success"@[0] == 's' && "success"@[1] == 'u' && "success"@[2] == 'c');
    reveal_strlit("ok");
    assert("ok"@.len() == 2 && "ok"@[0] == 'o' && "ok"@[1] == 'k' && "ok"@[0] == 'o');
    reveal_strlit("yellow");
    assert("yellow"@.len() == 6 && "yellow"@[0] == 'y' && "yellow"@[1] == 'e' && "yellow"@[2] == 'l');
    reveal_strlit("blue");
    assert("blue"@.len() == 4 && "blue"@[0] == 'b' && "blue"@[1] == 'l' && "blue"@[2] == 'u');
    reveal_strlit("magenta");
    assert("magenta"@.len() == 7 && "magenta"@[0] == 'm' && "magenta"@[1] == 'a' && "magenta"@[2] == 'g');
    reveal_strlit("cyan");
    assert("cyan"@.len() == 4 && "cyan"@[0] == 'c' && "cyan"@[1] == 'y' && "cyan"@[2] == 'a');
    reveal_strlit("white");
    assert("white"@.len() == 5 && "white"@[0] == 'w' && "white"@[1] == 'h' && "white"@[2] == 'i');
    reveal_strlit("orange");
    assert("orange"@.len() == 6 && "orange"@[0] == 'o' && "orange"@[1] == 'r' && "orange"@[2] == 'a');
    reveal_strlit("gray");
    assert("gray"@.len() == 4 && "gray"@[0] == 'g' && "gray"@[1] == 'r' && "gray"@[2] == 'a');
    reveal_strlit("grey");
    assert("grey"@.len() == 4 && "grey"@[0] == 'g' && "grey"@[1] == 'r' && "grey"@[2] == 'e');
    reveal_strlit("pink");
    assert("pink"@.len() == 4 && "pink"@[0] == 'p' && "pink"@[1] == 'i' && "pink"@[2] == 'n');
    reveal_strlit("purple");
    assert("purple"@.len() == 6 && "purple"@[0] == 'p' && "purple"@[1] == 'u' && "purple"@[2] == 'r');
}

/// A colour text made of letters (after trimming) is read as a colour name:
/// its lower-case form is looked up in the name table.
pub proof fn law_letters_are_names(t: Seq<char>)
    requires
        trim(t).len() > 0,
        forall|i: int| 0 <= i < trim(t).len() ==> ascii_letter(#[trigger] trim(t)[i]),
    ensures
        spec_parse_color(t) == named_color(lowercase(trim(t))),
{
    let s = trim(t);
    reveal_strlit("rgb(");
    assert(ascii_letter(s[0]));
    assert(ascii_letter(s.last()));
    if has_prefix(s, "rgb("@) && s.len() > 4 {
        assert(s.take(4)[3] == '(');
        assert(s[3] == '(');
        assert(ascii_letter(s[3]));
    }
    let d = unsigned_digits(s);
    assert(d =~= s);
    assert(!crate::text::all_digits(d) || d.len() == 0) by {
        if crate::text::all_digits(d) && d.len() > 0 {
            assert(crate::text::is_digit(d[0]));
        }
    }
}

} // verus!
