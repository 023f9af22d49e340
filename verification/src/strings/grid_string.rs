//! Wrapping of strings by character count, and the offsets that place wrapped
//! lines on a grid according to a pivot.
use vstd::prelude::*;
use vstd::string::{StrSliceExecFns, StringSliceAdditionalSpecFns};
use vstd::utf8::*;

use crate::pivot::Pivot;
use crate::strings::utf8_text::{chars_vec, lemma_ends_are_boundaries};
use crate::strings::whitespace::{
    is_whitespace, lemma_trimmed_end_len_bound, trim_end, trim_end_seq, trim_start, trim_start_seq,
    trimmed_end_len, unicode_whitespace,
};

verus! {

broadcast use vstd::utf8::group_utf8_lib;

/// `j` is the first index below `m` that holds a newline.
pub open spec fn is_first_newline(s: Seq<char>, j: int, m: int) -> bool {
    &&& 0 <= j < m
    &&& j < s.len()
    &&& s[j] == '\n'
    &&& forall|i: int| 0 <= i < j ==> s[i] != '\n'
}

/// The character `k` places before character `max_len` is whitespace.
pub open spec fn ws_back(s: Seq<char>, max_len: int, k: int) -> bool {
    unicode_whitespace(s[max_len - k])
}

/// How far back from character `max_len` the split moves to reach whitespace:
/// the least `k <= max_len` with whitespace at `max_len - k`, or 0 when word
/// wrap is off or there is none.
pub open spec fn move_back(s: Seq<char>, max_len: int, word_wrap: bool) -> int {
    if word_wrap && exists|k: int| 0 <= k <= max_len && ws_back(s, max_len, k) {
        choose|k: int|
            0 <= k <= max_len && ws_back(s, max_len, k) && forall|k2: int|
                0 <= k2 < k ==> !ws_back(s, max_len, k2)
    } else {
        0
    }
}

/// The next line of `s` wrapped to `max_len` characters and the remaining text,
/// or `None` when `s` is blank.
///
/// The line ends at the first newline among the first `max_len` characters;
/// a string of at most `max_len` characters is returned whole; otherwise the
/// string is split before character `max_len`, or, when word wrap is on, at
/// the last whitespace at or before character `max_len`. The line loses its
/// trailing whitespace and the rest its leading whitespace.
pub open spec fn grid_wrap(s: Seq<char>, max_len: int, word_wrap: bool) -> Option<
    (Seq<char>, Seq<char>),
> {
    let m = if max_len < s.len() {
        max_len
    } else {
        s.len() as int
    };
    if trimmed_end_len(s) == 0 {
        None
    } else if exists|j: int| 0 <= j < m && s[j] == '\n' {
        let j = choose|j: int| is_first_newline(s, j, m);
        Some((trim_end_seq(s.take(j)), trim_start_seq(s.skip(j))))
    } else if s.len() <= max_len {
        Some((trim_end_seq(s), Seq::empty()))
    } else {
        let k = max_len - move_back(s, max_len, word_wrap);
        Some((trim_end_seq(s.take(k)), trim_start_seq(s.skip(k))))
    }
}

/// Wrap the next line of a string to fit within `max_len` characters. It first
/// tries to split at the first newline before `max_len`; then, if `word_wrap` is
/// set, at the last whitespace character before `max_len`; otherwise the string
/// is split at `max_len`.
///
/// Returns the wrapped line and the remaining text, or `None` for a blank string.
pub fn wrap_line<'a>(string: &'a str, max_len: usize, word_wrap: bool) -> (r: Option<
    (&'a str, &'a str),
>)
    requires
        max_len > 0,
    ensures
        match r {
            None => grid_wrap(string@, max_len as int, word_wrap) is None,
            Some((a, b)) => grid_wrap(string@, max_len as int, word_wrap) == Some((a@, b@)),
        },
        r matches Some((a, b)) ==> a.spec_bytes().len() <= string.spec_bytes().len()
            && b.spec_bytes().len() <= string.spec_bytes().len(),
{
    let trimmed = trim_end(string);
    proof {
        lemma_trimmed_end_len_bound(string@);
    }
    if trimmed.is_empty() {
        return None;
    }
    let cs = chars_vec(string);
    let len = cs.len();
    let m = if max_len < len {
        max_len
    } else {
        len
    };
    // Handle newlines first
    let mut j: usize = 0;
    while j < m
        invariant
            cs@ == string@,
            len == cs@.len(),
            m <= len,
            m as int == (if (max_len as int) < string@.len() {
                max_len as int
            } else {
                string@.len() as int
            }),
            0 <= j <= m,
            forall|i: int| 0 <= i < j ==> string@[i] != '\n',
            trimmed_end_len(string@) != 0,
        decreases m - j,
    {
        if cs[j] == '\n' {
            let a = string.substring_char(0, j);
            let b = string.substring_char(j, len);
            proof {
                let ghost mm = m as int;
                assert(is_first_newline(string@, j as int, mm));
                let c = choose|c: int| is_first_newline(string@, c, mm);
                assert(is_first_newline(string@, c, mm));
                if c < j {
                    assert(string@[c] != '\n');
                }
                if j < c {
                    assert(string@[j as int] != '\n');
                }
                assert(b@ =~= string@.skip(j as int));
                assert(a@ =~= string@.take(j as int));
                crate::strings::utf8_text::lemma_encode_take_skip_len(string@, j as int);
                lemma_wrap_parts_len(string@, a@, b@);
            }
            return Some((trim_end(a), trim_start(b)));
        }
        j = j + 1;
    }
    if len <= max_len {
        let empty = "";
        proof {
            reveal_strlit("");
            assert(empty@ =~= Seq::<char>::empty());
            assert(string@.take(string@.len() as int) =~= string@);
            lemma_wrap_parts_len(string@, string@, empty@);
        }
        return Some((trim_end(string), empty));
    }
    let back = whitespace_back(&cs, string, max_len, word_wrap);
    let cut = max_len - back;
    let a = string.substring_char(0, cut);
    let b = string.substring_char(cut, len);
    proof {
        assert(b@ =~= string@.skip(cut as int));
        assert(a@ =~= string@.take(cut as int));
        crate::strings::utf8_text::lemma_encode_take_skip_len(string@, cut as int);
        lemma_wrap_parts_len(string@, a@, b@);
    }
    Some((trim_end(a), trim_start(b)))
}

/// How many characters back from character `max_len` the nearest whitespace
/// lies, when word wrap is on; 0 when it is off or there is none.
fn whitespace_back(cs: &Vec<char>, string: &str, max_len: usize, word_wrap: bool) -> (back: usize)
    requires
        cs@ == string@,
        max_len < string@.len(),
    ensures
        back as int == move_back(string@, max_len as int, word_wrap),
        back <= max_len,
{
    let mut back: usize = 0;
    if word_wrap {
        let mut k: usize = 0;
        let mut found = false;
        while k <= max_len && !found
            invariant
                cs@ == string@,
                max_len < string@.len(),
                max_len < cs.len(),
                0 <= k <= max_len + 1,
                found ==> k <= max_len && ws_back(string@, max_len as int, k as int),
                forall|k2: int| 0 <= k2 < k ==> !ws_back(string@, max_len as int, k2),
            decreases max_len + 1 - k + (if found {
                0int
            } else {
                1int
            }),
        {
            let c = cs[max_len - k];
            let ws = is_whitespace(c);
            assert(ws == ws_back(string@, max_len as int, k as int));
            if ws {
                found = true;
            } else {
                k = k + 1;
            }
        }
        if found {
            back = k;
        }
        proof {
            if found {
                let mb = move_back(string@, max_len as int, word_wrap);
                assert(0 <= mb <= max_len && ws_back(string@, max_len as int, mb));
                if mb < k {
                    assert(!ws_back(string@, max_len as int, mb));
                }
                if k < mb {
                    assert(!ws_back(string@, max_len as int, k as int));
                }
            } else {
                assert(!exists|k2: int|
                    0 <= k2 <= max_len && ws_back(string@, max_len as int, k2));
            }
        }
    }
    back
}

/// The parts of a wrapped line, trimmed, are no longer in UTF-8 than the
/// string they came from.
proof fn lemma_wrap_parts_len(s: Seq<char>, a: Seq<char>, b: Seq<char>)
    requires
        encode_utf8(a).len() <= encode_utf8(s).len(),
        encode_utf8(b).len() <= encode_utf8(s).len(),
    ensures
        encode_utf8(trim_end_seq(a)).len() <= encode_utf8(s).len(),
        encode_utf8(trim_start_seq(b)).len() <= encode_utf8(s).len(),
{
    lemma_trimmed_end_len_bound(a);
    crate::strings::whitespace::lemma_leading_ws_len_bound(b);
    crate::strings::utf8_text::lemma_encode_take_skip_len(a, trimmed_end_len(a) as int);
    crate::strings::utf8_text::lemma_encode_take_skip_len(
        b,
        crate::strings::whitespace::leading_ws_len(b) as int,
    );
}

} // verus!

verus! {

/// Repeated wrapping of `s` consumes text at every step until `s` is blank.
pub open spec fn grid_lines_ok(s: Seq<char>, max_len: int, word_wrap: bool) -> bool
    decreases s.len(),
{
    match grid_wrap(s, max_len, word_wrap) {
        None => true,
        Some((_, r)) => if r.len() < s.len() {
            grid_lines_ok(r, max_len, word_wrap)
        } else {
            false
        },
    }
}

/// The number of lines that repeated wrapping of `s` yields.
pub open spec fn grid_count(s: Seq<char>, max_len: int, word_wrap: bool) -> nat
    decreases s.len(),
{
    match grid_wrap(s, max_len, word_wrap) {
        None => 0,
        Some((_, r)) => if r.len() < s.len() {
            1 + grid_count(r, max_len, word_wrap)
        } else {
            1
        },
    }
}

/// Precalculate the number of vertical lines a wrapped string will occupy.
pub fn line_count(input: &str, max_len: usize, word_wrap: bool) -> (count: usize)
    requires
        max_len > 0,
    ensures
        count == grid_count(input@, max_len as int, word_wrap),
{
    proof {
        crate::laws::law_grid_wrapping_ends(input@, max_len as int, word_wrap);
    }
    let total = input.unicode_len();
    let mut input = input;
    let ghost whole = input@;
    let mut line_count: usize = 0;
    let mut done = false;
    while !done
        invariant
            max_len > 0,
            total == whole.len(),
            line_count + input@.len() <= total,
            !done ==> grid_lines_ok(input@, max_len as int, word_wrap),
            !done ==> grid_count(whole, max_len as int, word_wrap) == line_count + grid_count(
                input@,
                max_len as int,
                word_wrap,
            ),
            done ==> grid_count(whole, max_len as int, word_wrap) == line_count,
        decreases input@.len() + (if done {
            0int
        } else {
            1int
        }),
    {
        match wrap_line(input, max_len, word_wrap) {
            Some((_, rem)) => {
                line_count = line_count + 1;
                input = rem;
            },
            None => {
                done = true;
            },
        }
    }
    line_count
}

/// The integer that `x * halves / 2` rounds to, halves rounding away from zero.
pub open spec fn round_half_scaled(x: int, halves: int) -> int {
    if halves == 0 {
        0
    } else if halves == 1 {
        (x + 1) / 2
    } else {
        x
    }
}

/// Horizontal offset of a line of `line_len` characters so that the pivot
/// lines up with it: 0 for left pivots, half the last index (rounded) for
/// centered pivots and the whole last index for right pivots, to the left.
pub open spec fn hor_offset(pivot: Pivot, line_len: int) -> int {
    let last = if line_len > 0 {
        line_len - 1
    } else {
        0
    };
    -round_half_scaled(last, pivot.x_halves())
}

/// Vertical offset of the first of `lines` wrapped lines: 0 for top pivots,
/// half the last line index (rounded) for centered pivots, and the whole last
/// line index for bottom pivots.
pub open spec fn ver_offset(pivot: Pivot, lines: int) -> int {
    let last = if lines > 0 {
        lines - 1
    } else {
        0
    };
    round_half_scaled(last, 2 - pivot.y_halves())
}

/// Calculate the number of characters to offset a line by horizontally based
/// on its pivot and length.
pub fn hor_pivot_offset(pivot: Pivot, line_len: usize) -> (r: i32)
    requires
        line_len <= 0x100_0000,
    ensures
        r as int == hor_offset(pivot, line_len as int),
{
    let last: i32 = if line_len > 0 {
        (line_len - 1) as i32
    } else {
        0
    };
    match pivot.x_halves_exec() {
        0 => 0,
        1 => -((last + 1) / 2),
        _ => -last,
    }
}

/// Calculate the number of lines to offset a wrapped string by vertically
/// based on the pivot.
pub fn ver_pivot_offset(string: &str, pivot: Pivot, max_width: usize, word_wrap: bool) -> (r: i32)
    requires
        pivot.y_halves() != 2 ==> max_width > 0 && grid_count(string@, max_width as int, word_wrap)
            <= 0x100_0000,
    ensures
        pivot.y_halves() == 2 ==> r == 0,
        pivot.y_halves() != 2 ==> r as int == ver_offset(
            pivot,
            grid_count(string@, max_width as int, word_wrap) as int,
        ),
{
    let yh = pivot.y_halves_exec();
    if yh == 2 {
        return 0;
    }
    let lines = line_count(string, max_width, word_wrap);
    let last: i32 = if lines > 0 {
        (lines - 1) as i32
    } else {
        0
    };
    if yh == 1 {
        (last + 1) / 2
    } else {
        last
    }
}

} // verus!
