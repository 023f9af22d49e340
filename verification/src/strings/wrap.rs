//! Wrapping of plain (untagged) strings by byte length.
use vstd::prelude::*;
use vstd::string::StringSliceAdditionalSpecFns;
use vstd::utf8::*;

use crate::strings::utf8_text::{
    byte_before, first_byte_before, is_first_byte_before, is_last_byte_before, last_byte_before,
    lemma_after_ascii_is_boundary, lemma_ascii_byte_is_boundary, lemma_ends_are_boundaries,
    lemma_first_byte_exists, lemma_first_byte_unique, lemma_last_byte_exists,
    lemma_last_byte_unique, newline_byte, space_byte,
};

verus! {

/// The byte length up to which a line is searched: `max_len`, or the whole
/// input where that is shorter.
pub open spec fn search_len(b: Seq<u8>, max_len: int) -> int {
    if max_len < b.len() {
        max_len
    } else {
        b.len() as int
    }
}

/// The inputs on which [wrap_string] returns: the first `max_len` bytes must
/// end on a char boundary.
pub open spec fn wrap_input_ok(b: Seq<u8>, max_len: int) -> bool {
    max_len < b.len() ==> is_char_boundary(b, max_len)
}

/// How far a word wrap looks for a space: the first `max_len` bytes, and with
/// `at_limit` also the byte right after them.
pub open spec fn space_search_len(max_len: int, at_limit: bool) -> int {
    if at_limit {
        max_len + 1
    } else {
        max_len
    }
}

/// Where wrapping cuts its input: the wrapped line is `b[..cut]` and the
/// remaining text is `b[resume..]`. A newline among the first `max_len` bytes
/// ends the line there; otherwise a short enough input is returned whole; otherwise
/// with word wrap the line ends at the last space among the first `max_len`
/// bytes (with `at_limit`, also the byte right after them); otherwise it is cut
/// at exactly `max_len` bytes.
pub open spec fn wrap_cut(b: Seq<u8>, max_len: int, word_wrap: bool, at_limit: bool) -> (int, int) {
    let m = search_len(b, max_len);
    let ms = space_search_len(max_len, at_limit);
    if byte_before(b, newline_byte(), m) {
        let p = first_byte_before(b, newline_byte(), m);
        (p, p + 1)
    } else if b.len() <= max_len {
        (b.len() as int, b.len() as int)
    } else if word_wrap && byte_before(b, space_byte(), ms) {
        let q = last_byte_before(b, space_byte(), ms);
        (q, q + 1)
    } else {
        (max_len, max_len)
    }
}

/// The wrapped line: the bytes before the cut.
pub open spec fn wrap_head(b: Seq<u8>, max_len: int, word_wrap: bool, at_limit: bool) -> Seq<u8> {
    b.subrange(0, wrap_cut(b, max_len, word_wrap, at_limit).0)
}

/// The remaining text after the cut and its separator.
pub open spec fn wrap_rest(b: Seq<u8>, max_len: int, word_wrap: bool, at_limit: bool) -> Seq<u8> {
    b.subrange(wrap_cut(b, max_len, word_wrap, at_limit).1, b.len() as int)
}

/// Every line that repeated wrapping produces can be wrapped, and each step
/// consumes text (so the repetition ends).
pub open spec fn wrap_lines_ok(b: Seq<u8>, max_len: int, word_wrap: bool, at_limit: bool) -> bool
    decreases b.len(),
{
    let r = wrap_rest(b, max_len, word_wrap, at_limit);
    &&& wrap_input_ok(b, max_len)
    &&& if r.len() == 0 {
        true
    } else if r.len() < b.len() {
        wrap_lines_ok(r, max_len, word_wrap, at_limit)
    } else {
        false
    }
}

/// The number of lines that repeated wrapping of `b` produces.
pub open spec fn wrap_count(b: Seq<u8>, max_len: int, word_wrap: bool, at_limit: bool) -> nat
    decreases b.len(),
{
    let r = wrap_rest(b, max_len, word_wrap, at_limit);
    if r.len() == 0 {
        1
    } else if r.len() < b.len() {
        1 + wrap_count(r, max_len, word_wrap, at_limit)
    } else {
        1
    }
}

/// Facts about the cut: it stays within the input, the separator it drops is
/// empty, one newline or one space, the line fits in `max_len` bytes and holds
/// no newline, and a non-empty input always loses bytes when `max_len > 0`.
pub proof fn lemma_wrap_cut_facts(b: Seq<u8>, max_len: int, word_wrap: bool, at_limit: bool)
    requires
        max_len >= 0,
    ensures
        ({
            let (cut, resume) = wrap_cut(b, max_len, word_wrap, at_limit);
            &&& 0 <= cut <= resume <= b.len()
            &&& cut <= max_len
            &&& resume - cut <= 1
            &&& resume - cut == 1 ==> (b[cut] == newline_byte() || b[cut] == space_byte())
            &&& forall|i: int| 0 <= i < cut ==> b[i] != newline_byte()
            &&& (max_len > 0 && b.len() > 0) ==> resume > 0
        }),
{
    let m = search_len(b, max_len);
    if byte_before(b, newline_byte(), m) {
        lemma_first_byte_exists(b, newline_byte(), m);
    } else if b.len() <= max_len {
    } else if word_wrap && byte_before(b, space_byte(), space_search_len(max_len, at_limit)) {
        lemma_last_byte_exists(b, space_byte(), space_search_len(max_len, at_limit));
    } else {
    }
}

/// Repeated wrapping produces at most one line per byte, and one line for an
/// empty string.
pub proof fn lemma_wrap_count_bound(b: Seq<u8>, max_len: int, word_wrap: bool, at_limit: bool)
    requires
        max_len >= 0,
        wrap_lines_ok(b, max_len, word_wrap, at_limit),
    ensures
        1 <= wrap_count(b, max_len, word_wrap, at_limit),
        wrap_count(b, max_len, word_wrap, at_limit) <= if b.len() == 0 {
            1
        } else {
            b.len()
        },
    decreases b.len(),
{
    lemma_wrap_cut_facts(b, max_len, word_wrap, at_limit);
    let r = wrap_rest(b, max_len, word_wrap, at_limit);
    if r.len() > 0 && r.len() < b.len() {
        lemma_wrap_count_bound(r, max_len, word_wrap, at_limit);
    }
}

/// Wrap the next line of a string as [wrap_cut] describes.
pub(crate) fn wrap_bytes<'a>(input: &'a str, max_len: usize, wrap: bool, at_limit: bool) -> (r: (
    &'a str,
    &'a str,
))
    requires
        wrap_input_ok(input.spec_bytes(), max_len as int),
    ensures
        r.0.spec_bytes() == wrap_head(input.spec_bytes(), max_len as int, wrap, at_limit),
        r.1.spec_bytes() == wrap_rest(input.spec_bytes(), max_len as int, wrap, at_limit),
{
    let ghost b = input.spec_bytes();
    let bytes = input.as_bytes();
    let n = bytes.len();
    let m = if max_len < n {
        max_len
    } else {
        n
    };
    proof {
        lemma_wrap_cut_facts(b, max_len as int, wrap, at_limit);
    }
    let mut i: usize = 0;
    while i < m
        invariant
            bytes@ == b,
            b == input.spec_bytes(),
            n == b.len(),
            m == search_len(b, max_len as int),
            0 <= i <= m,
            m <= n,
            forall|j: int| 0 <= j < i ==> b[j] != newline_byte(),
        decreases m - i,
    {
        if bytes[i] == 0x0Au8 {
            proof {
                assert(is_first_byte_before(b, newline_byte(), i as int, m as int));
                lemma_first_byte_exists(b, newline_byte(), m as int);
                lemma_first_byte_unique(
                    b,
                    newline_byte(),
                    i as int,
                    first_byte_before(b, newline_byte(), m as int),
                    m as int,
                );
                lemma_ascii_byte_is_boundary(input, i as int);
            }
            let (head, tail) = input.split_at(i);
            proof {
                assert(tail.spec_bytes()[0] == b[i as int]);
                lemma_after_ascii_is_boundary(tail);
            }
            let (_nl, rest) = tail.split_at(1);
            proof {
                assert(rest.spec_bytes() =~= b.subrange(i + 1, n as int));
            }
            return (head, rest);
        }
        i = i + 1;
    }
    assert(!byte_before(b, newline_byte(), m as int));
    if n <= max_len {
        proof {
            lemma_ends_are_boundaries(input);
        }
        let (whole, empty) = input.split_at(n);
        proof {
            assert(whole.spec_bytes() =~= b.subrange(0, n as int));
            assert(empty.spec_bytes() =~= b.subrange(n as int, n as int));
        }
        return (whole, empty);
    }
    if wrap {
        let ms: usize = if at_limit {
            max_len + 1
        } else {
            max_len
        };
        let mut j: usize = ms;
        while j > 0
            invariant
                bytes@ == b,
                b == input.spec_bytes(),
                n == b.len(),
                m == search_len(b, max_len as int),
                m <= n,
                ms as int == space_search_len(max_len as int, at_limit),
                ms <= n,
                0 <= j <= ms,
                forall|k: int| j <= k < ms ==> b[k] != space_byte(),
                !byte_before(b, newline_byte(), m as int),
                (n as int) > max_len,
                wrap,
            decreases j,
        {
            j = j - 1;
            if bytes[j] == 0x20u8 {
                proof {
                    assert(is_last_byte_before(b, space_byte(), j as int, ms as int));
                    lemma_last_byte_exists(b, space_byte(), ms as int);
                    lemma_last_byte_unique(
                        b,
                        space_byte(),
                        j as int,
                        last_byte_before(b, space_byte(), ms as int),
                        ms as int,
                    );
                    lemma_ascii_byte_is_boundary(input, j as int);
                }
                let (head, tail) = input.split_at(j);
                proof {
                    assert(tail.spec_bytes()[0] == b[j as int]);
                    lemma_after_ascii_is_boundary(tail);
                }
                let (_sp, rest) = tail.split_at(1);
                proof {
                    assert(rest.spec_bytes() =~= b.subrange(j + 1, n as int));
                }
                return (head, rest);
            }
        }
        assert(!byte_before(b, space_byte(), ms as int));
    }
    // Hard break at max_len, which the precondition puts on a char boundary.
    let (head, rest) = input.split_at(max_len);
    (head, rest)
}

/// Wrap the next line of a string to fit within `max_len` bytes.
///
/// The line ends at the first newline among the first `max_len` bytes (which is
/// dropped); a string no longer than `max_len` is returned whole; with `wrap`
/// set, the line ends at the last space among the first `max_len + 1` bytes
/// (which is dropped), so a word that ends exactly at `max_len` stays on the
/// line; otherwise the string is split at `max_len`.
///
/// Returns the wrapped line and the remaining text.
pub fn wrap_string<'a>(input: &'a str, max_len: usize, wrap: bool) -> (r: (&'a str, &'a str))
    requires
        wrap_input_ok(input.spec_bytes(), max_len as int),
    ensures
        r.0.spec_bytes() == wrap_head(input.spec_bytes(), max_len as int, wrap, true),
        r.1.spec_bytes() == wrap_rest(input.spec_bytes(), max_len as int, wrap, true),
{
    wrap_bytes(input, max_len, wrap, true)
}

/// The number of lines that repeated wrapping gives, as [wrap_count] describes.
pub(crate) fn count_wrapped_lines(input: &str, max_len: usize, word_wrap: bool, at_limit: bool) -> (count: usize)
    requires
        wrap_lines_ok(input.spec_bytes(), max_len as int, word_wrap, at_limit),
        input.spec_bytes().len() < usize::MAX,
    ensures
        count == wrap_count(input.spec_bytes(), max_len as int, word_wrap, at_limit),
{
    let ghost total = input.spec_bytes().len();
    let mut count: usize = 1;
    let mut res = wrap_bytes(input, max_len, word_wrap, at_limit);
    proof {
        lemma_wrap_cut_facts(input.spec_bytes(), max_len as int, word_wrap, at_limit);
    }
    while !res.1.is_empty()
        invariant
            wrap_lines_ok(input.spec_bytes(), max_len as int, word_wrap, at_limit),
            total == input.spec_bytes().len(),
            total < usize::MAX,
            1 <= count,
            count + res.1.spec_bytes().len() <= total + 1,
            res.1.spec_bytes().len() > 0 ==> wrap_lines_ok(
                res.1.spec_bytes(),
                max_len as int,
                word_wrap,
                at_limit,
            ),
            wrap_count(input.spec_bytes(), max_len as int, word_wrap, at_limit) == count + (if res.1.spec_bytes().len()
                == 0 {
                0
            } else {
                wrap_count(res.1.spec_bytes(), max_len as int, word_wrap, at_limit)
            }),
        decreases res.1.spec_bytes().len(),
    {
        let ghost prev = res.1.spec_bytes();
        res = wrap_bytes(res.1, max_len, word_wrap, at_limit);
        proof {
            lemma_wrap_cut_facts(prev, max_len as int, word_wrap, at_limit);
        }
        count = count + 1;
    }
    count
}

} // verus!

verus! {

/// The number of lines that repeated wrapping with [wrap_string] gives, as
/// [wrap_count] describes, or `None` where a step would panic or leave as
/// much text as it was given.
pub(crate) fn try_wrap_line_count(input: &str, max_len: usize, word_wrap: bool) -> (r: Option<usize>)
    ensures
        r is None <==> !wrap_lines_ok(input.spec_bytes(), max_len as int, word_wrap, true),
        r matches Some(c) ==> c == wrap_count(input.spec_bytes(), max_len as int, word_wrap, true),
{
    let total = input.as_bytes().len();
    let mut cur = input;
    let mut count: usize = 1;
    loop
        invariant
            total == input.spec_bytes().len(),
            1 <= count,
            count - 1 + cur.spec_bytes().len() <= total,
            wrap_lines_ok(input.spec_bytes(), max_len as int, word_wrap, true) == wrap_lines_ok(
                cur.spec_bytes(),
                max_len as int,
                word_wrap,
                true,
            ),
            wrap_count(input.spec_bytes(), max_len as int, word_wrap, true) == count - 1
                + wrap_count(cur.spec_bytes(), max_len as int, word_wrap, true),
        decreases cur.spec_bytes().len(),
    {
        let n = cur.as_bytes().len();
        if max_len < n && !cur.is_char_boundary(max_len) {
            return None;
        }
        let (_, rest) = wrap_string(cur, max_len, word_wrap);
        if rest.is_empty() {
            return Some(count);
        }
        if rest.as_bytes().len() >= n {
            return None;
        }
        cur = rest;
        count = count + 1;
    }
}

/// Precalculate the number of vertical lines a string wrapped with
/// [wrap_string] will occupy.
pub fn wrap_line_count(input: &str, max_len: usize, word_wrap: bool) -> (count: usize)
    requires
        wrap_lines_ok(input.spec_bytes(), max_len as int, word_wrap, true),
        input.spec_bytes().len() < usize::MAX,
    ensures
        count == wrap_count(input.spec_bytes(), max_len as int, word_wrap, true),
{
    count_wrapped_lines(input, max_len, word_wrap, true)
}

} // verus!
