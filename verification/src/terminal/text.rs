//! Building a terminal from a block of text.
use vstd::prelude::*;
use vstd::string::StringSliceAdditionalSpecFns;
use vstd::utf8::*;

use crate::padding::Padding;
use crate::pivot::Pivot;
use crate::strings::tagged_string::{split_ascii_head, split_before_ascii};
use crate::strings::utf8_text::{
    byte_before, chars_vec, first_byte_before, is_first_byte_before, lemma_first_byte_exists,
    lemma_first_byte_unique, newline_byte,
};
use crate::terminal::{Terminal, TerminalView};
use crate::tile::{default_tile, Tile};

verus! {

broadcast use vstd::utf8::group_utf8_lib;

/// A line without the carriage return that ends it, if any.
pub open spec fn strip_cr(l: Seq<u8>) -> Seq<u8> {
    if l.len() > 0 && l.last() == 0x0Du8 {
        l.drop_last()
    } else {
        l
    }
}

/// The non-empty lines of the UTF-8 bytes `b`, split as `str::lines` does: at
/// each newline, dropping a carriage return right before it; a newline at the
/// very end does not start another line.
pub open spec fn text_rows(b: Seq<u8>) -> Seq<Seq<u8>>
    decreases b.len(),
{
    if b.len() == 0 {
        seq![]
    } else if byte_before(b, newline_byte(), b.len() as int) {
        let p = first_byte_before(b, newline_byte(), b.len() as int);
        proof {
            lemma_first_byte_exists(b, newline_byte(), b.len() as int);
        }
        let line = strip_cr(b.subrange(0, p));
        let rest = text_rows(b.subrange(p + 1, b.len() as int));
        if line.len() > 0 {
            seq![line] + rest
        } else {
            rest
        }
    } else {
        seq![b]
    }
}

/// The length of the longest of the lines, in bytes.
pub open spec fn longest(ls: Seq<Seq<u8>>) -> nat
    decreases ls.len(),
{
    if ls.len() == 0 {
        0
    } else {
        let m = longest(ls.drop_last());
        if ls.last().len() > m {
            ls.last().len()
        } else {
            m
        }
    }
}

/// The tile at `(x, y)` of a terminal built from `rows`: the first row is the
/// top one, and a row's characters fill it from the left.
pub open spec fn text_tile(rows: Seq<Seq<u8>>, x: int, y: int) -> Tile {
    let row = decode_utf8(rows[rows.len() - 1 - y]);
    if x < row.len() {
        Tile { glyph: row[x], ..default_tile() }
    } else {
        default_tile()
    }
}

proof fn lemma_longest(ls: Seq<Seq<u8>>)
    ensures
        forall|i: int| 0 <= i < ls.len() ==> (#[trigger] ls[i]).len() <= longest(ls),
        ls.len() > 0 ==> exists|i: int| 0 <= i < ls.len() && (#[trigger] ls[i]).len() == longest(ls),
    decreases ls.len(),
{
    if ls.len() > 0 {
        lemma_longest(ls.drop_last());
        assert forall|i: int| 0 <= i < ls.len() implies (#[trigger] ls[i]).len() <= longest(ls) by {
            if i < ls.len() - 1 {
                assert(ls[i] == ls.drop_last()[i]);
            }
        }
        if ls.last().len() > longest(ls.drop_last()) {
            assert(ls[ls.len() - 1].len() == longest(ls));
        } else if ls.len() > 1 {
            let i = choose|i: int|
                0 <= i < ls.drop_last().len() && (#[trigger] ls.drop_last()[i]).len() == longest(
                    ls.drop_last(),
                );
            assert(ls[i] == ls.drop_last()[i]);
        } else {
            assert(ls[0].len() == longest(ls));
        }
    }
}

proof fn lemma_text_rows_nonempty(b: Seq<u8>)
    ensures
        forall|i: int| 0 <= i < text_rows(b).len() ==> (#[trigger] text_rows(b)[i]).len() > 0,
    decreases b.len(),
{
    if b.len() > 0 && byte_before(b, newline_byte(), b.len() as int) {
        lemma_first_byte_exists(b, newline_byte(), b.len() as int);
        let p = first_byte_before(b, newline_byte(), b.len() as int);
        lemma_text_rows_nonempty(b.subrange(p + 1, b.len() as int));
        let line = strip_cr(b.subrange(0, p));
        let rest = text_rows(b.subrange(p + 1, b.len() as int));
        if line.len() > 0 {
            assert forall|i: int| 0 <= i < text_rows(b).len() implies (#[trigger] text_rows(
                b,
            )[i]).len() > 0 by {
                if i > 0 {
                    assert(text_rows(b)[i] == rest[i - 1]);
                }
            }
        }
    }
}

pub(crate) proof fn lemma_index_unique(w: int, x: int, y: int, x2: int, y2: int)
    requires
        0 <= x < w,
        0 <= x2 < w,
        0 <= y,
        0 <= y2,
        y * w + x == y2 * w + x2,
    ensures
        x == x2,
        y == y2,
{
    assert(y == y2 && x == x2) by (nonlinear_arith)
        requires
            0 <= x < w,
            0 <= x2 < w,
            0 <= y,
            0 <= y2,
            y * w + x == y2 * w + x2,
    ;
}

/// The non-empty lines of `s`, as [text_rows] describes.
fn split_rows(s: &str) -> (v: Vec<&str>)
    ensures
        v@.map_values(|l: &str| l.spec_bytes()) == text_rows(s.spec_bytes()),
{
    let mut rows: Vec<&str> = Vec::new();
    let mut rest = s;
    loop
        invariant
            rows@.map_values(|l: &str| l.spec_bytes()) + text_rows(rest.spec_bytes()) == text_rows(
                s.spec_bytes(),
            ),
        decreases rest.spec_bytes().len(),
    {
        let b = rest.as_bytes();
        let n = b.len();
        if n == 0 {
            proof {
                assert(rows@.map_values(|l: &str| l.spec_bytes()) + text_rows(rest.spec_bytes())
                    =~= rows@.map_values(|l: &str| l.spec_bytes()));
            }
            return rows;
        }
        let mut p: usize = 0;
        while p < n && b[p] != 0x0A
            invariant
                p <= n,
                n == rest.spec_bytes().len(),
                b@ == rest.spec_bytes(),
                forall|j: int| 0 <= j < p ==> rest.spec_bytes()[j] != newline_byte(),
            decreases n - p,
        {
            p = p + 1;
        }
        let ghost rb = rest.spec_bytes();
        if p == n {
            proof {
                assert(!byte_before(rb, newline_byte(), n as int));
                assert(rows@.push(rest).map_values(|l: &str| l.spec_bytes()) =~= rows@.map_values(
                    |l: &str| l.spec_bytes(),
                ) + text_rows(rb));
            }
            rows.push(rest);
            return rows;
        }
        proof {
            assert(is_first_byte_before(rb, newline_byte(), p as int, n as int));
            lemma_first_byte_exists(rb, newline_byte(), n as int);
            lemma_first_byte_unique(
                rb,
                newline_byte(),
                p as int,
                first_byte_before(rb, newline_byte(), n as int),
                n as int,
            );
        }
        let (line, tail) = split_before_ascii(rest, p);
        let (_, after) = split_ascii_head(tail);
        proof {
            assert(after.spec_bytes() =~= rb.subrange(p + 1, n as int));
        }
        let lb = line.as_bytes();
        let line = if lb.len() > 0 && lb[lb.len() - 1] == 0x0D {
            split_before_ascii(line, lb.len() - 1).0
        } else {
            line
        };
        proof {
            assert(line.spec_bytes() =~= strip_cr(rb.subrange(0, p as int)));
        }
        if line.len() > 0 {
            proof {
                assert(rows@.push(line).map_values(|l: &str| l.spec_bytes()) =~= rows@.map_values(
                    |l: &str| l.spec_bytes(),
                ).push(line.spec_bytes()));
                assert(seq![line.spec_bytes()] + text_rows(after.spec_bytes()) == text_rows(rb));
                assert(rows@.map_values(|l: &str| l.spec_bytes()).push(line.spec_bytes())
                    + text_rows(after.spec_bytes()) =~= rows@.map_values(|l: &str| l.spec_bytes())
                    + (seq![line.spec_bytes()] + text_rows(after.spec_bytes())));
            }
            rows.push(line);
        }
        rest = after;
    }
}

impl Terminal {
    /// Create a terminal from a string, where each line is a row of the
    /// terminal, the first line at the top. Empty lines are ignored (add a
    /// space for an actual empty row). The terminal is as wide as the longest
    /// line in bytes; `None` where there is no non-empty line.
    pub fn from_string(string: &str) -> (r: Option<Self>)
        requires
            longest(text_rows(string.spec_bytes())) <= i32::MAX,
            text_rows(string.spec_bytes()).len() <= i32::MAX,
            longest(text_rows(string.spec_bytes())) * text_rows(string.spec_bytes()).len()
                <= usize::MAX,
        ensures
            ({
                let rows = text_rows(string.spec_bytes());
                let w = longest(rows) as int;
                let h = rows.len() as int;
                match r {
                    None => rows.len() == 0,
                    Some(t) => {
                        &&& rows.len() > 0
                        &&& t.wf()
                        &&& t@.width == w
                        &&& t@.height == h
                        &&& t@.clear_tile == default_tile()
                        &&& t@.pivot == Pivot::BottomLeft
                        &&& t@.padding == Padding::zero_spec()
                        &&& forall|x: int, y: int|
                            0 <= x < w && 0 <= y < h ==> #[trigger] t@.tiles[y * w + x]
                                == text_tile(rows, x, y)
                    },
                }
            }),
    {
        let rows = split_rows(string);
        let ghost rs = text_rows(string.spec_bytes());
        proof {
            lemma_longest(rs);
            lemma_text_rows_nonempty(string.spec_bytes());
        }
        let h = rows.len();
        let mut width: usize = 0;
        let mut i: usize = 0;
        while i < h
            invariant
                h == rows@.len(),
                rows@.map_values(|l: &str| l.spec_bytes()) == rs,
                i <= h,
                width == longest(rs.take(i as int)),
            decreases h - i,
        {
            proof {
                assert(rs.take(i + 1).drop_last() =~= rs.take(i as int));
                assert(rs.take(i + 1).last() == rs[i as int]);
                assert(rs[i as int] == rows@[i as int].spec_bytes());
            }
            let li = rows[i].as_bytes().len();
            proof {
                assert(li == rs[i as int].len());
                assert(longest(rs.take(i + 1)) == if li > longest(rs.take(i as int)) {
                    li as nat
                } else {
                    longest(rs.take(i as int))
                });
            }
            if li > width {
                width = li;
            }
            i = i + 1;
        }
        proof {
            assert(rs.take(h as int) =~= rs);
        }
        if width == 0 || h == 0 {
            proof {
                if h > 0 {
                    assert(rs[0].len() > 0);
                    assert(rs[0].len() <= longest(rs));
                }
            }
            return None;
        }
        let mut t = Terminal::new([width as u32, h as u32]);
        let ghost w = width as int;
        proof {
            assert forall|x2: int, y2: int| 0 <= x2 < w && 0 <= y2 < h implies #[trigger] t@.tiles[y2
                * w + x2] == default_tile() by {
                crate::terminal::lemma_index_in_bounds(w, h as int, x2, y2);
            }
        }
        let mut y: usize = 0;
        while y < h
            invariant
                h == rows@.len(),
                h == rs.len(),
                rows@.map_values(|l: &str| l.spec_bytes()) == rs,
                w == width == longest(rs),
                0 < w <= i32::MAX,
                y <= h,
                t.wf(),
                t@.width == w,
                t@.height == h,
                t@.clear_tile == default_tile(),
                t@.pivot == Pivot::BottomLeft,
                t@.padding == Padding::zero_spec(),
                forall|i: int| 0 <= i < rs.len() ==> (#[trigger] rs[i]).len() <= longest(rs),
                forall|x2: int, y2: int|
                    0 <= x2 < w && 0 <= y2 < h ==> #[trigger] t@.tiles[y2 * w + x2] == if y2 < y {
                        text_tile(rs, x2, y2)
                    } else {
                        default_tile()
                    },
            decreases h - y,
        {
            let row = rows[h - 1 - y];
            let chars = chars_vec(row);
            proof {
                assert(rs[h - 1 - y] == row.spec_bytes());
                assert(decode_utf8(row.spec_bytes()) == row@);
                crate::terminal::put::lemma_char_count_bound(row@);
            }
            let n = chars.len();
            let mut x: usize = 0;
            while x < n
                invariant
                    h == rs.len(),
                    w == longest(rs),
                    w == width,
                    0 < w <= i32::MAX,
                    y < h,
                    n == chars@.len(),
                    n <= w,
                    chars@ == decode_utf8(rs[h - 1 - y]),
                    x <= n,
                    t.wf(),
                    t@.width == w,
                    t@.height == h,
                    t@.clear_tile == default_tile(),
                    t@.pivot == Pivot::BottomLeft,
                    t@.padding == Padding::zero_spec(),
                    forall|x2: int, y2: int|
                        0 <= x2 < w && 0 <= y2 < h ==> #[trigger] t@.tiles[y2 * w + x2] == if y2 < y
                            || (y2 == y && x2 < x) {
                            text_tile(rs, x2, y2)
                        } else {
                            default_tile()
                        },
                decreases n - x,
            {
                proof {
                    crate::terminal::lemma_index_in_bounds(w, h as int, x as int, y as int);
                    assert(t@.tiles.len() == w * h);
                    assert(y * width + x < t@.tiles.len());
                }
                let ghost before = t@.tiles;
                let ghost idx = y * w + x;
                t.write_glyph(y * width + x, chars[x], None, None);
                proof {
                    assert forall|x2: int, y2: int|
                        0 <= x2 < w && 0 <= y2 < h implies #[trigger] t@.tiles[y2 * w + x2] == if y2
                            < y || (y2 == y && x2 < x + 1) {
                            text_tile(rs, x2, y2)
                        } else {
                            default_tile()
                        } by {
                        crate::terminal::lemma_index_in_bounds(w, h as int, x2, y2);
                        if y2 * w + x2 == idx {
                            lemma_index_unique(w, x2, y2, x as int, y as int);
                            assert(before[idx] == default_tile());
                            assert(t@.tiles[idx] == before[idx].patched(Some(chars@[x as int]), None, None));
                        } else {
                            assert(t@.tiles[y2 * w + x2] == before[y2 * w + x2]);
                        }
                    }
                }
                x = x + 1;
            }
            proof {
                assert forall|x2: int, y2: int|
                    0 <= x2 < w && 0 <= y2 < h implies #[trigger] t@.tiles[y2 * w + x2] == if y2
                        < y + 1 {
                        text_tile(rs, x2, y2)
                    } else {
                        default_tile()
                    } by {}
            }
            y = y + 1;
        }
        Some(t)
    }
}

} // verus!
