//! Wrapping of plain strings by byte length.
use vstd::prelude::*;
use vstd::string::StringSliceAdditionalSpecFns;

use crate::strings::wrap::{wrap_count, wrap_head, wrap_input_ok, wrap_lines_ok, wrap_rest};

verus! {

/// Wrap the next line of a string to fit within `max_len` bytes: the line ends
/// at the first newline among the first `max_len` bytes, a short enough string
/// is returned whole, with `wrap` set the line ends at the last space among the
/// first `max_len` bytes, and otherwise the string is split at `max_len`.
///
/// Returns the wrapped line and the remaining text.
pub fn wrap_line<'a>(input: &'a str, max_len: usize, wrap: bool) -> (r: (&'a str, &'a str))
    requires
        wrap_input_ok(input.spec_bytes(), max_len as int),
    ensures
        r.0.spec_bytes() == wrap_head(input.spec_bytes(), max_len as int, wrap, false),
        r.1.spec_bytes() == wrap_rest(input.spec_bytes(), max_len as int, wrap, false),
{
    crate::strings::wrap::wrap_bytes(input, max_len, wrap, false)
}

/// Precalculate the number of vertical lines a wrapped string will occupy.
pub fn line_count(input: &str, max_len: usize, word_wrap: bool) -> (count: usize)
    requires
        wrap_lines_ok(input.spec_bytes(), max_len as int, word_wrap, false),
        input.spec_bytes().len() < usize::MAX,
    ensures
        count == wrap_count(input.spec_bytes(), max_len as int, word_wrap, false),
{
    crate::strings::wrap::count_wrapped_lines(input, max_len, word_wrap, false)
}

} // verus!
