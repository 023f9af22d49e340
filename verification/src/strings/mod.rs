//! Splitting, wrapping and tokenizing of strings written to a terminal.
use vstd::prelude::*;
use vstd::utf8::is_scalar;

pub mod formatting;
pub mod grid_iter;
pub mod grid_string;
pub mod layout;
pub mod tagged_string;
pub mod terminal_string;
pub mod utf8_text;
pub mod whitespace;
pub mod wrap;

pub use tagged_string::{
    wrap_tagged_line_count, wrap_tagged_string, Token, TokenError, TokenErrorKind, TokenIterator,
};
pub use terminal_string::{TerminalString, TerminalStringBuilder};
pub use wrap::{wrap_line_count, wrap_string};

verus! {

// UTF-8 encodes codepoints using 1–4 bytes. The leading byte tells how many
// bytes the sequence uses, and continuation bytes always start with 10xxxxxx.
//
// 1-byte:  0xxxxxxx                             (U+0000  – U+007F)
// 2-byte:  110xxxxx 10xxxxxx                    (U+0080  – U+07FF)
// 3-byte:  1110xxxx 10xxxxxx 10xxxxxx           (U+0800  – U+FFFF)
// 4-byte:  11110xxx 10xxxxxx 10xxxxxx 10xxxxxx  (U+10000 – U+10FFFF)
/// The number of bytes of the sequence that `leading` starts, by its high bits;
/// anything that is not a 1, 2 or 3 byte lead counts as a 4 byte lead.
pub open spec fn decoded_width(leading: u8) -> int {
    if leading & 0x80 == 0 {
        1
    } else if leading & 0xE0 == 0xC0 {
        2
    } else if leading & 0xF0 == 0xE0 {
        3
    } else {
        4
    }
}

/// The codepoint that the sequence at `pos` encodes: the payload bits of the
/// leading byte followed by the low six bits of each continuation byte.
pub open spec fn decoded_codepoint(bytes: Seq<u8>, pos: int) -> u32 {
    let leading = bytes[pos];
    if leading & 0x80 == 0 {
        leading as u32
    } else if leading & 0xE0 == 0xC0 {
        ((leading & 0x1F) as u32) << 6u32 | (bytes[pos + 1] & 0x3F) as u32
    } else if leading & 0xF0 == 0xE0 {
        ((leading & 0x0F) as u32) << 12u32 | ((bytes[pos + 1] & 0x3F) as u32) << 6u32 | (bytes[pos
            + 2] & 0x3F) as u32
    } else {
        ((leading & 0x07) as u32) << 18u32 | ((bytes[pos + 1] & 0x3F) as u32) << 12u32 | ((bytes[pos
            + 2] & 0x3F) as u32) << 6u32 | (bytes[pos + 3] & 0x3F) as u32
    }
}

/// Calls `char::from_u32`.
///
/// Claims: the result is the char with value `v` when `v` is a Unicode scalar
/// value (at most 0x10FFFF and not a surrogate), and `None` otherwise.
#[verifier::external_body]
pub(crate) fn char_from_u32(v: u32) -> (r: Option<char>)
    ensures
        r == (if is_scalar(v) {
            Some(v as char)
        } else {
            None
        }),
{
    char::from_u32(v)
}

/// Decode the unicode character at `pos` of a slice of string bytes, and the
/// number of bytes it occupies.
pub fn decode_char(bytes: &[u8], pos: usize) -> (r: (char, usize))
    requires
        pos < bytes@.len(),
        pos + decoded_width(bytes@[pos as int]) <= bytes@.len(),
        is_scalar(decoded_codepoint(bytes@, pos as int)),
    ensures
        r.0 == decoded_codepoint(bytes@, pos as int) as char,
        r.1 as int == decoded_width(bytes@[pos as int]),
{
    let leading = bytes[pos];
    let (codepoint, len): (u32, usize) = if leading & 0x80 == 0 {
        // Leading 0: all 7 bits are the codepoint directly.
        (leading as u32, 1)
    } else if leading & 0xE0 == 0xC0 {
        // Leading 110: 5 payload bits here, 6 in the continuation byte.
        let high = (leading & 0x1F) as u32;
        let low = (bytes[pos + 1] & 0x3F) as u32;
        (high << 6u32 | low, 2)
    } else if leading & 0xF0 == 0xE0 {
        // Leading 1110: 4 payload bits here, then 6 + 6 in the two continuation bytes.
        let high = (leading & 0x0F) as u32;
        let mid = (bytes[pos + 1] & 0x3F) as u32;
        let low = (bytes[pos + 2] & 0x3F) as u32;
        (high << 12u32 | mid << 6u32 | low, 3)
    } else {
        // Leading 11110: 3 payload bits here, then 6 + 6 + 6 in the three continuation bytes.
        let high = (leading & 0x07) as u32;
        let mid_high = (bytes[pos + 1] & 0x3F) as u32;
        let mid_low = (bytes[pos + 2] & 0x3F) as u32;
        let low = (bytes[pos + 3] & 0x3F) as u32;
        (high << 18u32 | mid_high << 12u32 | mid_low << 6u32 | low, 4)
    };
    (char_from_u32(codepoint).unwrap(), len)
}

} // verus!
