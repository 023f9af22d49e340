//! Colors used by terminal tiles, and the color names and hex codes that
//! string tags accept.
use vstd::prelude::*;

verus! {

/// A color with 8-bit red, green, blue and alpha channels, packed as
/// `0xRRGGBBAA`.
pub type Color = u32;

/// The packed color with the given channels.
pub open spec fn rgba(r: u8, g: u8, b: u8, a: u8) -> Color {
    (r as int * 0x1000000 + g as int * 0x10000 + b as int * 0x100 + a as int) as u32
}

/// Pack four channels into a color.
pub fn pack_rgba(r: u8, g: u8, b: u8, a: u8) -> (c: Color)
    ensures
        c == rgba(r, g, b, a),
{
    let c: u32 = r as u32 * 0x1000000 + g as u32 * 0x10000 + b as u32 * 0x100 + a as u32;
    c
}

pub const BLACK: Color = 0x000000FFu32;

pub const WHITE: Color = 0xFFFFFFFFu32;

pub const RED: Color = 0xFF0000FFu32;

pub const GREEN: Color = 0x008000FFu32;

pub const BLUE: Color = 0x0000FFFFu32;

pub const YELLOW: Color = 0xFFFF00FFu32;

pub const CYAN: Color = 0x00FFFFFFu32;

pub const MAGENTA: Color = 0xFF00FFFFu32;

pub const ORANGE: Color = 0xFFA500FFu32;

pub const GRAY: Color = 0x808080FFu32;

pub const DARK_GRAY: Color = 0x404040FFu32;

pub const LIGHT_GRAY: Color = 0xC0C0C0FFu32;

pub const DARK_RED: Color = 0x8B0000FFu32;

pub const DARK_GREEN: Color = 0x006400FFu32;

pub const DARK_BLUE: Color = 0x00008BFFu32;

pub const DARK_CYAN: Color = 0x008B8BFFu32;

pub const DARK_MAGENTA: Color = 0x8B008BFFu32;

pub const PURPLE: Color = 0x800080FFu32;

pub const PINK: Color = 0xFFC0CBFFu32;

pub const BROWN: Color = 0xA52A2AFFu32;

/// The lower case form of an ASCII letter; any other byte is unchanged.
pub open spec fn ascii_lower(x: u8) -> u8 {
    if 0x41 <= x <= 0x5A {
        (x + 32) as u8
    } else {
        x
    }
}

/// Two byte strings are equal when ASCII letters are compared without case.
pub open spec fn ascii_ci_eq(a: Seq<u8>, b: Seq<u8>) -> bool {
    &&& a.len() == b.len()
    &&& forall|i: int| 0 <= i < a.len() ==> ascii_lower(a[i]) == ascii_lower(b[i])
}

/// Compare two byte strings, treating upper and lower case ASCII letters as equal.
pub fn ascii_eq_ignore_case(a: &[u8], b: &[u8]) -> (r: bool)
    ensures
        r == ascii_ci_eq(a@, b@),
{
    if a.len() != b.len() {
        return false;
    }
    let mut i: usize = 0;
    while i < a.len()
        invariant
            a@.len() == b@.len(),
            0 <= i <= a@.len(),
            forall|j: int| 0 <= j < i ==> ascii_lower(a@[j]) == ascii_lower(b@[j]),
        decreases a@.len() - i,
    {
        let x = a[i];
        let y = b[i];
        let lx = if 0x41 <= x && x <= 0x5A {
            x + 32
        } else {
            x
        };
        let ly = if 0x41 <= y && y <= 0x5A {
            y + 32
        } else {
            y
        };
        if lx != ly {
            return false;
        }
        i = i + 1;
    }
    true
}

/// The value of an ASCII hex digit of either case.
pub open spec fn hex_digit(x: u8) -> Option<u8> {
    if 0x30 <= x <= 0x39 {
        Some((x - 0x30) as u8)
    } else if 0x61 <= x <= 0x66 {
        Some((x - 0x61 + 10) as u8)
    } else if 0x41 <= x <= 0x46 {
        Some((x - 0x41 + 10) as u8)
    } else {
        None
    }
}

/// The byte that two hex digits at `i` and `i + 1` encode.
pub open spec fn hex_pair(b: Seq<u8>, i: int) -> u8 {
    (hex_digit(b[i])->0 * 16 + hex_digit(b[i + 1])->0) as u8
}

/// A hex color code: `#` followed by six (RRGGBB) or eight (RRGGBBAA) hex digits.
pub open spec fn hex_color(b: Seq<u8>) -> Option<Color> {
    if (b.len() == 7 || b.len() == 9) && b[0] == 0x23 && (forall|i: int|
        1 <= i < b.len() ==> hex_digit(#[trigger] b[i]) is Some) {
        Some(
            rgba(
                hex_pair(b, 1),
                hex_pair(b, 3),
                hex_pair(b, 5),
                if b.len() == 9 {
                    hex_pair(b, 7)
                } else {
                    255
                },
            ),
        )
    } else {
        None
    }
}

/// The colors that tags can name, compared without regard to case.
pub open spec fn named_color(n: Seq<u8>) -> Option<Color> {
    if ascii_ci_eq(n, seq![0x62u8, 0x6c, 0x61, 0x63, 0x6b]) {
        Some(BLACK)  // black
    } else if ascii_ci_eq(n, seq![0x77u8, 0x68, 0x69, 0x74, 0x65]) {
        Some(WHITE)  // white
    } else if ascii_ci_eq(n, seq![0x72u8, 0x65, 0x64]) {
        Some(RED)  // red
    } else if ascii_ci_eq(n, seq![0x67u8, 0x72, 0x65, 0x65, 0x6e]) {
        Some(GREEN)  // green
    } else if ascii_ci_eq(n, seq![0x62u8, 0x6c, 0x75, 0x65]) {
        Some(BLUE)  // blue
    } else if ascii_ci_eq(n, seq![0x79u8, 0x65, 0x6c, 0x6c, 0x6f, 0x77]) {
        Some(YELLOW)  // yellow
    } else if ascii_ci_eq(n, seq![0x63u8, 0x79, 0x61, 0x6e]) {
        Some(CYAN)  // cyan
    } else if ascii_ci_eq(n, seq![0x6du8, 0x61, 0x67, 0x65, 0x6e, 0x74, 0x61]) {
        Some(MAGENTA)  // magenta
    } else if ascii_ci_eq(n, seq![0x6fu8, 0x72, 0x61, 0x6e, 0x67, 0x65]) {
        Some(ORANGE)  // orange
    } else if ascii_ci_eq(n, seq![0x67u8, 0x72, 0x61, 0x79]) || ascii_ci_eq(
        n,
        seq![0x67u8, 0x72, 0x65, 0x79],
    ) {
        Some(GRAY)  // gray, grey
    } else if ascii_ci_eq(n, seq![0x64u8, 0x61, 0x72, 0x6b, 0x5f, 0x67, 0x72, 0x61, 0x79]) {
        Some(DARK_GRAY)  // dark_gray
    } else if ascii_ci_eq(n, seq![0x6cu8, 0x69, 0x67, 0x68, 0x74, 0x5f, 0x67, 0x72, 0x61, 0x79]) {
        Some(LIGHT_GRAY)  // light_gray
    } else if ascii_ci_eq(n, seq![0x64u8, 0x61, 0x72, 0x6b, 0x5f, 0x72, 0x65, 0x64]) {
        Some(DARK_RED)  // dark_red
    } else if ascii_ci_eq(n, seq![0x64u8, 0x61, 0x72, 0x6b, 0x5f, 0x67, 0x72, 0x65, 0x65, 0x6e]) {
        Some(DARK_GREEN)  // dark_green
    } else if ascii_ci_eq(n, seq![0x64u8, 0x61, 0x72, 0x6b, 0x5f, 0x62, 0x6c, 0x75, 0x65]) {
        Some(DARK_BLUE)  // dark_blue
    } else if ascii_ci_eq(n, seq![0x64u8, 0x61, 0x72, 0x6b, 0x5f, 0x63, 0x79, 0x61, 0x6e]) {
        Some(DARK_CYAN)  // dark_cyan
    } else if ascii_ci_eq(
        n,
        seq![0x64u8, 0x61, 0x72, 0x6b, 0x5f, 0x6d, 0x61, 0x67, 0x65, 0x6e, 0x74, 0x61],
    ) {
        Some(DARK_MAGENTA)  // dark_magenta
    } else if ascii_ci_eq(n, seq![0x70u8, 0x75, 0x72, 0x70, 0x6c, 0x65]) {
        Some(PURPLE)  // purple
    } else if ascii_ci_eq(n, seq![0x70u8, 0x69, 0x6e, 0x6b]) {
        Some(PINK)  // pink
    } else if ascii_ci_eq(n, seq![0x62u8, 0x72, 0x6f, 0x77, 0x6e]) {
        Some(BROWN)  // brown
    } else {
        None
    }
}

/// The color that a tag's color text stands for: a hex code, else a color name.
pub open spec fn color_from_text(n: Seq<u8>) -> Option<Color> {
    if hex_color(n) is Some {
        hex_color(n)
    } else {
        named_color(n)
    }
}

fn hex_digit_exec(x: u8) -> (r: Option<u8>)
    ensures
        r == hex_digit(x),
{
    if 0x30 <= x && x <= 0x39 {
        Some(x - 0x30)
    } else if 0x61 <= x && x <= 0x66 {
        Some(x - 0x61 + 10)
    } else if 0x41 <= x && x <= 0x46 {
        Some(x - 0x41 + 10)
    } else {
        None
    }
}

fn parse_hex_color(b: &[u8]) -> (r: Option<Color>)
    ensures
        r == hex_color(b@),
{
    let n = b.len();
    if !((n == 7 || n == 9) && b[0] == 0x23) {
        return None;
    }
    let mut digits: Vec<u8> = Vec::new();
    let mut i: usize = 1;
    while i < n
        invariant
            n == b@.len(),
            n == 7 || n == 9,
            1 <= i <= n,
            digits@.len() == i - 1,
            forall|j: int| 1 <= j < i ==> hex_digit(#[trigger] b@[j]) is Some,
            forall|j: int| 1 <= j < i ==> digits@[j - 1] == hex_digit(#[trigger] b@[j])->0,
        decreases n - i,
    {
        match hex_digit_exec(b[i]) {
            Some(v) => digits.push(v),
            None => {
                return None;
            },
        }
        i = i + 1;
    }
    assert(digits@[0] == hex_digit(b@[1])->0);
    assert(digits@[1] == hex_digit(b@[2])->0);
    assert(digits@[2] == hex_digit(b@[3])->0);
    assert(digits@[3] == hex_digit(b@[4])->0);
    assert(digits@[4] == hex_digit(b@[5])->0);
    assert(digits@[5] == hex_digit(b@[6])->0);
    let r = digits[0] * 16 + digits[1];
    let g = digits[2] * 16 + digits[3];
    let bl = digits[4] * 16 + digits[5];
    let a = if n == 9 {
        assert(digits@[6] == hex_digit(b@[7])->0);
        assert(digits@[7] == hex_digit(b@[8])->0);
        digits[6] * 16 + digits[7]
    } else {
        255
    };
    Some(pack_rgba(r, g, bl, a))
}

/// Parse the color text of a string tag: a hex code `#RRGGBB` or `#RRGGBBAA`,
/// or one of the color names in [named_color], in any case.
pub fn parse_color_string(text: &[u8]) -> (r: Option<Color>)
    ensures
        r == color_from_text(text@),
{
    let hex = parse_hex_color(text);
    if hex.is_some() {
        return hex;
    }
    if ascii_eq_ignore_case(text, &[0x62u8, 0x6c, 0x61, 0x63, 0x6b]) {
        Some(BLACK)
    } else if ascii_eq_ignore_case(text, &[0x77u8, 0x68, 0x69, 0x74, 0x65]) {
        Some(WHITE)
    } else if ascii_eq_ignore_case(text, &[0x72u8, 0x65, 0x64]) {
        Some(RED)
    } else if ascii_eq_ignore_case(text, &[0x67u8, 0x72, 0x65, 0x65, 0x6e]) {
        Some(GREEN)
    } else if ascii_eq_ignore_case(text, &[0x62u8, 0x6c, 0x75, 0x65]) {
        Some(BLUE)
    } else if ascii_eq_ignore_case(text, &[0x79u8, 0x65, 0x6c, 0x6c, 0x6f, 0x77]) {
        Some(YELLOW)
    } else if ascii_eq_ignore_case(text, &[0x63u8, 0x79, 0x61, 0x6e]) {
        Some(CYAN)
    } else if ascii_eq_ignore_case(text, &[0x6du8, 0x61, 0x67, 0x65, 0x6e, 0x74, 0x61]) {
        Some(MAGENTA)
    } else if ascii_eq_ignore_case(text, &[0x6fu8, 0x72, 0x61, 0x6e, 0x67, 0x65]) {
        Some(ORANGE)
    } else if ascii_eq_ignore_case(text, &[0x67u8, 0x72, 0x61, 0x79]) || ascii_eq_ignore_case(
        text,
        &[0x67u8, 0x72, 0x65, 0x79],
    ) {
        Some(GRAY)
    } else if ascii_eq_ignore_case(text, &[0x64u8, 0x61, 0x72, 0x6b, 0x5f, 0x67, 0x72, 0x61, 0x79]) {
        Some(DARK_GRAY)
    } else if ascii_eq_ignore_case(
        text,
        &[0x6cu8, 0x69, 0x67, 0x68, 0x74, 0x5f, 0x67, 0x72, 0x61, 0x79],
    ) {
        Some(LIGHT_GRAY)
    } else if ascii_eq_ignore_case(text, &[0x64u8, 0x61, 0x72, 0x6b, 0x5f, 0x72, 0x65, 0x64]) {
        Some(DARK_RED)
    } else if ascii_eq_ignore_case(
        text,
        &[0x64u8, 0x61, 0x72, 0x6b, 0x5f, 0x67, 0x72, 0x65, 0x65, 0x6e],
    ) {
        Some(DARK_GREEN)
    } else if ascii_eq_ignore_case(text, &[0x64u8, 0x61, 0x72, 0x6b, 0x5f, 0x62, 0x6c, 0x75, 0x65]) {
        Some(DARK_BLUE)
    } else if ascii_eq_ignore_case(text, &[0x64u8, 0x61, 0x72, 0x6b, 0x5f, 0x63, 0x79, 0x61, 0x6e]) {
        Some(DARK_CYAN)
    } else if ascii_eq_ignore_case(
        text,
        &[0x64u8, 0x61, 0x72, 0x6b, 0x5f, 0x6d, 0x61, 0x67, 0x65, 0x6e, 0x74, 0x61],
    ) {
        Some(DARK_MAGENTA)
    } else if ascii_eq_ignore_case(text, &[0x70u8, 0x75, 0x72, 0x70, 0x6c, 0x65]) {
        Some(PURPLE)
    } else if ascii_eq_ignore_case(text, &[0x70u8, 0x69, 0x6e, 0x6b]) {
        Some(PINK)
    } else if ascii_eq_ignore_case(text, &[0x62u8, 0x72, 0x6f, 0x77, 0x6e]) {
        Some(BROWN)
    } else {
        None
    }
}

} // verus!
