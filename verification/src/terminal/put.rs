//! Writing strings to a terminal: wrapping them to the padded area, aligning
//! each line by the pivot, and coloring them from their settings or tags.
use vstd::prelude::*;
use vstd::string::StringSliceAdditionalSpecFns;
use vstd::utf8::*;

use crate::color::Color;
use crate::strings::tagged_string::{
    lemma_token_step_progress, tagged_lines, tagged_lines_ok, tagged_wrap, tagged_wrap_ok,
    token_ok, token_result_view, token_step, Token, TokenIterator, TokenView,
};
use crate::strings::terminal_string::TerminalString;
use crate::strings::utf8_text::chars_vec;
use crate::strings::wrap::{
    lemma_wrap_count_bound, lemma_wrap_cut_facts, wrap_count, wrap_head, wrap_input_ok,
    wrap_lines_ok, wrap_rest,
};
use crate::padding::Padding;
use crate::pivot::{Pivot, PivotedPoint};
use crate::strings::terminal_string::default_string;
use crate::strings::whitespace::trim_start_seq;
use crate::terminal::{Terminal, TerminalView};
use crate::tile::Tile;

verus! {

broadcast use vstd::utf8::group_utf8_lib;

/// The longest string, in bytes, that is written to a terminal: line lengths
/// and counts stay exact in the single precision floats that alignment is
/// defined with.
pub open spec fn max_put_len() -> int {
    0x100_0000
}

/// The tiles with `chars` written from index `start` on, each replacing the
/// glyph and the colors that are given.
pub open spec fn write_run(
    tiles: Seq<Tile>,
    start: int,
    chars: Seq<char>,
    fg: Option<Color>,
    bg: Option<Color>,
) -> Seq<Tile> {
    Seq::new(
        tiles.len(),
        |i: int|
            if start <= i < start + chars.len() {
                tiles[i].patched(Some(chars[i - start]), fg, bg)
            } else {
                tiles[i]
            },
    )
}

/// How far left of its starting column a line of `count` characters begins,
/// for a pivot `halves` halves of the width from the left: the pivot's share of
/// `count - 1`, rounded down.
pub open spec fn align_shift(halves: int, count: int) -> int {
    if count <= 1 {
        0
    } else if halves == 0 {
        0
    } else if halves == 1 {
        (count - 1) / 2
    } else {
        count - 1
    }
}

/// How far above the first line's row the first line of `lines` lines is
/// moved, for a pivot `halves` halves of the height from the bottom: the
/// share of `lines - 1` that lies below the pivot, rounded down.
pub open spec fn line_shift(halves: int, lines: int) -> int {
    if lines <= 1 {
        0
    } else if halves == 0 {
        lines - 1
    } else if halves == 1 {
        (lines - 1) / 2
    } else {
        0
    }
}

/// The foreground or background color a plain string writes: its own color,
/// else the clear color where it clears colors, else none (the tile keeps its color).
pub open spec fn plain_color(own: Option<Color>, clear_colors: bool, clear: Color) -> Option<Color> {
    match own {
        Some(c) => Some(c),
        None => if clear_colors {
            Some(clear)
        } else {
            None
        },
    }
}

/// Writing the lines of a plain string on a terminal `w` tiles wide: `line`
/// starts at column `x` of row `y`, moved left by [align_shift]; each further
/// line comes from wrapping `rem` and starts at column `newline_x` one row
/// lower. Writing stops below the bottom row. `None` where a write would fall
/// off the tiles or the wrapping would not end.
pub open spec fn run_plain(
    w: int,
    tiles: Seq<Tile>,
    x: int,
    y: int,
    line: Seq<u8>,
    rem: Seq<u8>,
    newline_x: int,
    max_len: int,
    word_wrap: bool,
    xh: int,
    fg: Option<Color>,
    bg: Option<Color>,
) -> Option<Seq<Tile>>
    decreases 2 * rem.len() + if line.len() > 0 {
        1int
    } else {
        0int
    },
{
    if line.len() == 0 && rem.len() == 0 {
        Some(tiles)
    } else {
        let chars = decode_utf8(line);
        let x0 = x - align_shift(xh, chars.len() as int);
        let start = y * w + x0;
        if chars.len() > 0 && (x0 < 0 || start + chars.len() > tiles.len()) {
            None
        } else {
            let written = write_run(tiles, start, chars, fg, bg);
            if y - 1 < 0 || rem.len() == 0 {
                Some(written)
            } else if !wrap_input_ok(rem, max_len) {
                None
            } else {
                let next = wrap_rest(rem, max_len, word_wrap, true);
                if next.len() < rem.len() {
                    run_plain(
                        w,
                        written,
                        newline_x,
                        y - 1,
                        wrap_head(rem, max_len, word_wrap, true),
                        next,
                        newline_x,
                        max_len,
                        word_wrap,
                        xh,
                        fg,
                        bg,
                    )
                } else {
                    None
                }
            }
        }
    }
}

/// The tiles after writing the plain (untagged) string `s` at `(ox, oy)`,
/// measured from the terminal's pivot, or `None` where writing it panics.
///
/// The string is wrapped to the padded width less the padding once more, its
/// first line to that less `ox`. Its lines are moved up by [line_shift] of
/// their count and written one row apart, each moved left by [align_shift]
/// of its length, with the string's colors as [plain_color] gives them.
pub open spec fn plain_put(
    v: TerminalView,
    ox: int,
    oy: int,
    s: Seq<u8>,
    word_wrap: bool,
    clear_colors: bool,
    fg: Option<Color>,
    bg: Option<Color>,
) -> Option<Seq<Tile>> {
    let max_len = v.inner_width() - v.padding.left - v.padding.right;
    let first_len = max_len - ox;
    if max_len < 0 || ox < 0 || first_len < 0 || s.len() > max_put_len() || !wrap_input_ok(
        s,
        first_len,
    ) {
        None
    } else {
        let line = wrap_head(s, first_len, word_wrap, true);
        let rem = wrap_rest(s, first_len, word_wrap, true);
        if !wrap_lines_ok(rem, max_len, word_wrap, true) {
            None
        } else {
            let lines = 1 + wrap_count(rem, max_len, word_wrap, true) as int;
            match (v.transform(ox, oy), v.transform(0, 0)) {
                (Some(p), Some(z)) => run_plain(
                    v.width as int,
                    v.tiles,
                    p.0,
                    p.1 + line_shift(v.pivot.y_halves(), lines),
                    line,
                    rem,
                    z.0,
                    max_len,
                    word_wrap,
                    v.pivot.x_halves(),
                    plain_color(fg, clear_colors, v.clear_tile.fg_color),
                    plain_color(bg, clear_colors, v.clear_tile.bg_color),
                ),
                _ => None,
            }
        }
    }
}

fn align_shift_exec(halves: u8, count: usize) -> (r: i64)
    requires
        halves <= 2,
        count <= i32::MAX,
    ensures
        r == align_shift(halves as int, count as int),
        0 <= r <= count,
{
    if count <= 1 {
        0
    } else if halves == 0 {
        0
    } else if halves == 1 {
        ((count - 1) / 2) as i64
    } else {
        (count - 1) as i64
    }
}

fn line_shift_exec(halves: u8, lines: usize) -> (r: i64)
    requires
        halves <= 2,
        lines <= max_put_len() + 1,
    ensures
        r == line_shift(halves as int, lines as int),
        0 <= r <= lines,
{
    if lines <= 1 {
        0
    } else if halves == 0 {
        (lines - 1) as i64
    } else if halves == 1 {
        ((lines - 1) / 2) as i64
    } else {
        0
    }
}

proof fn lemma_write_run_step(
    tiles: Seq<Tile>,
    start: int,
    chars: Seq<char>,
    k: int,
    fg: Option<Color>,
    bg: Option<Color>,
)
    requires
        0 <= k < chars.len(),
        0 <= start,
        start + chars.len() <= tiles.len(),
    ensures
        write_run(tiles, start, chars.take(k + 1), fg, bg) == write_run(
            tiles,
            start,
            chars.take(k),
            fg,
            bg,
        ).update(start + k, tiles[start + k].patched(Some(chars[k]), fg, bg)),
{
    assert(write_run(tiles, start, chars.take(k + 1), fg, bg) =~= write_run(
        tiles,
        start,
        chars.take(k),
        fg,
        bg,
    ).update(start + k, tiles[start + k].patched(Some(chars[k]), fg, bg)));
}

impl Terminal {
    /// Write `chars` from tile index `start` on.
    fn write_chars(&mut self, start: usize, chars: &Vec<char>, fg: Option<Color>, bg: Option<Color>)
        requires
            old(self).wf(),
            start + chars@.len() <= old(self)@.tiles.len(),
        ensures
            final(self).wf(),
            final(self)@ == old(self)@.with_tiles(
                write_run(old(self)@.tiles, start as int, chars@, fg, bg),
            ),
    {
        let n = chars.len();
        let mut k: usize = 0;
        proof {
            assert(write_run(old(self)@.tiles, start as int, chars@.take(0), fg, bg)
                =~= old(self)@.tiles);
        }
        while k < n
            invariant
                n == chars@.len(),
                k <= n,
                start + n <= old(self)@.tiles.len(),
                self.wf(),
                self@ == old(self)@.with_tiles(
                    write_run(old(self)@.tiles, start as int, chars@.take(k as int), fg, bg),
                ),
            decreases n - k,
        {
            proof {
                lemma_write_run_step(old(self)@.tiles, start as int, chars@, k as int, fg, bg);
            }
            self.write_glyph(start + k, chars[k], fg, bg);
            k = k + 1;
        }
        proof {
            assert(chars@.take(n as int) =~= chars@);
        }
    }

    /// Write a plain string, ignoring tags, at `xy` from the pivot.
    fn put_string_untagged(&mut self, xy: [i32; 2], string: &TerminalString<&str>)
        requires
            old(self).wf(),
            plain_put(
                old(self)@,
                xy[0] as int,
                xy[1] as int,
                string.string.spec_bytes(),
                string.word_wrap,
                string.clear_colors,
                string.fg_color,
                string.bg_color,
            ) is Some,
        ensures
            final(self).wf(),
            final(self)@ == old(self)@.with_tiles(
                plain_put(
                    old(self)@,
                    xy[0] as int,
                    xy[1] as int,
                    string.string.spec_bytes(),
                    string.word_wrap,
                    string.clear_colors,
                    string.fg_color,
                    string.bg_color,
                )->0,
            ),
    {
        self.put_plain_checked(xy, string);
    }

    /// Write a plain string as [Self::put_string_untagged] does, and report
    /// whether [plain_put] gives tiles for it. Where it gives none, writing
    /// stops where it would panic and the tiles may be partly written.
    fn put_plain_checked(&mut self, xy: [i32; 2], string: &TerminalString<&str>) -> (ok: bool)
        requires
            old(self).wf(),
        ensures
            final(self).wf(),
            final(self)@ == old(self)@.with_tiles(final(self)@.tiles),
            ok == plain_put(
                old(self)@,
                xy[0] as int,
                xy[1] as int,
                string.string.spec_bytes(),
                string.word_wrap,
                string.clear_colors,
                string.fg_color,
                string.bg_color,
            ) is Some,
            ok ==> final(self)@.tiles == plain_put(
                old(self)@,
                xy[0] as int,
                xy[1] as int,
                string.string.spec_bytes(),
                string.word_wrap,
                string.clear_colors,
                string.fg_color,
                string.bg_color,
            )->0,
    {
        let ghost v = self@;
        let ghost put = plain_put(
            v,
            xy[0] as int,
            xy[1] as int,
            string.string.spec_bytes(),
            string.word_wrap,
            string.clear_colors,
            string.fg_color,
            string.bg_color,
        );
        let s = string.string;
        let fg = match string.fg_color {
            Some(c) => Some(c),
            None => if string.clear_colors {
                Some(self.clear_tile().fg_color)
            } else {
                None
            },
        };
        let bg = match string.bg_color {
            Some(c) => Some(c),
            None => if string.clear_colors {
                Some(self.clear_tile().bg_color)
            } else {
                None
            },
        };
        let padding = self.padding();
        let inner = self.inner_width();
        if inner < padding.left || inner - padding.left < padding.right || xy[0] < 0 {
            return false;
        }
        let max_len = inner - padding.left - padding.right;
        if (xy[0] as usize) > max_len {
            return false;
        }
        let first_len = max_len - xy[0] as usize;
        let n = s.as_bytes().len();
        if n > 0x100_0000 || (first_len < n && !s.is_char_boundary(first_len)) {
            return false;
        }
        let (mut line, mut rem) = crate::strings::wrap::wrap_string(s, first_len, string.word_wrap);
        proof {
            lemma_wrap_cut_facts(s.spec_bytes(), first_len as int, string.word_wrap, true);
        }
        let more = match crate::strings::wrap::try_wrap_line_count(rem, max_len, string.word_wrap) {
            Some(c) => c,
            None => {
                return false;
            },
        };
        proof {
            lemma_wrap_count_bound(rem.spec_bytes(), max_len as int, string.word_wrap, true);
        }
        let lines = 1 + more;
        let start = match self.try_transform_point(xy) {
            Some(p) => p,
            None => {
                return false;
            },
        };
        let newline_x = match self.try_transform_point([0, 0]) {
            Some(p) => p[0] as i64,
            None => {
                return false;
            },
        };
        let pivot = self.pivot();
        let xh = pivot.x_halves_exec();
        let mut x: i64 = start[0] as i64;
        let mut y: i64 = start[1] as i64 + line_shift_exec(pivot.y_halves_exec(), lines);
        let w = self.width() as i64;
        while line.len() > 0 || rem.len() > 0
            invariant
                self.wf(),
                self@ == v.with_tiles(self@.tiles),
                v == old(self)@,
                put == plain_put(
                    v,
                    xy[0] as int,
                    xy[1] as int,
                    string.string.spec_bytes(),
                    string.word_wrap,
                    string.clear_colors,
                    string.fg_color,
                    string.bg_color,
                ),
                v.wf(),
                w == v.width,
                0 <= newline_x < v.width,
                xh == v.pivot.x_halves(),
                0 <= y,
                max_len >= 0,
                run_plain(
                    w as int,
                    self@.tiles,
                    x as int,
                    y as int,
                    line.spec_bytes(),
                    rem.spec_bytes(),
                    newline_x as int,
                    max_len as int,
                    string.word_wrap,
                    xh as int,
                    fg,
                    bg,
                ) == put,
                rem.spec_bytes().len() <= max_put_len(),
                line.spec_bytes().len() <= max_put_len(),
                -(max_put_len()) <= x <= v.width,
                y <= v.height + max_put_len(),
            decreases 2 * rem.spec_bytes().len() + if line.spec_bytes().len() > 0 {
                1int
            } else {
                0int
            },
        {
            let ghost old_tiles_in_body = self@.tiles;
            let chars = chars_vec(line);
            let n = chars.len();
            proof {
                assert(decode_utf8(line.spec_bytes()) == line@);
                assert(n <= line.spec_bytes().len()) by {
                    lemma_char_count_bound(line@);
                }
            }
            let x0 = x - align_shift_exec(xh, n);
            if n > 0 {
                proof {
                    assert(0 <= y * w <= (v.height + max_put_len()) * v.width) by (nonlinear_arith)
                        requires
                            0 <= y <= v.height + max_put_len(),
                            0 <= w == v.width,
                    ;
                    assert((v.height + max_put_len()) * v.width <= (i32::MAX + max_put_len()) * i32::MAX) by (nonlinear_arith)
                        requires
                            v.height <= i32::MAX,
                            v.width <= i32::MAX,
                    ;
                }
                if x0 < 0 || y * w + x0 + n as i64 > self.tile_len_i64() {
                    return false;
                }
                let start_index = (y * w + x0) as usize;
                self.write_chars(start_index, &chars, fg, bg);
            } else {
                proof {
                    assert(write_run(self@.tiles, y * w + x0, chars@, fg, bg) =~= self@.tiles);
                }
            }
            let ghost written = self@.tiles;
            proof {
                assert(written == write_run(
                    old_tiles_in_body,
                    (y * w + x0) as int,
                    decode_utf8(line.spec_bytes()),
                    fg,
                    bg,
                ));
            }
            y = y - 1;
            if y < 0 || rem.len() == 0 {
                return true;
            }
            let rn = rem.as_bytes().len();
            if max_len < rn && !rem.is_char_boundary(max_len) {
                return false;
            }
            let next = crate::strings::wrap::wrap_string(rem, max_len, string.word_wrap);
            proof {
                lemma_wrap_cut_facts(rem.spec_bytes(), max_len as int, string.word_wrap, true);
            }
            if next.1.as_bytes().len() >= rn {
                return false;
            }
            line = next.0;
            rem = next.1;
            x = newline_x;
        }
        true
    }
}

pub(crate) proof fn lemma_char_count_bound(chars: Seq<char>)
    ensures
        chars.len() <= encode_utf8(chars).len(),
    decreases chars.len(),
{
    if chars.len() > 0 {
        lemma_char_count_bound(chars.drop_first());
        assert(encode_scalar(chars[0] as u32).len() >= 1);
    }
}

/// Where a tagged string is being written: the column and row of the next
/// glyph and the colors it gets.
pub struct TagCursor {
    pub x: int,
    pub y: int,
    pub fg: Color,
    pub bg: Color,
}

/// The state that writing a tagged string reaches.
pub enum TagRun {
    /// Writing goes on with these tiles from this cursor.
    Going(Seq<Tile>, TagCursor),
    /// Writing stopped below the bottom row with these tiles.
    Halted(Seq<Tile>),
    /// Writing panics (a write off the tiles, a token that cannot be read, or
    /// wrapping that would not end).
    Fails,
}

/// The tiles that a tagged string leaves, unless writing it panics.
pub open spec fn run_tiles(r: TagRun) -> Option<Seq<Tile>> {
    match r {
        TagRun::Going(t, _) => Some(t),
        TagRun::Halted(t) => Some(t),
        TagRun::Fails => None,
    }
}

/// Writing the tokens of the UTF-8 bytes `b` of one line on a terminal `w`
/// tiles wide, from cursor `c`: text and spaces are written with the cursor's
/// colors and move it right; a newline moves it to column `newline_x` one row
/// down, and writing stops below the bottom row; color tags set its colors,
/// and end tags set them back to those of `clear`.
pub open spec fn run_tokens(
    w: int,
    tiles: Seq<Tile>,
    b: Seq<u8>,
    c: TagCursor,
    newline_x: int,
    clear: Tile,
) -> TagRun
    decreases b.len(),
{
    if !token_ok(b) {
        TagRun::Fails
    } else {
        match token_step(b) {
            None => TagRun::Going(tiles, c),
            Some((Err(_), _)) => TagRun::Fails,
            Some((Ok(tok), k)) => if !(0 < k <= b.len()) {
                TagRun::Fails
            } else {
                let rest = b.subrange(k, b.len() as int);
                match tok {
                    TokenView::Text(t) => {
                        let chars = decode_utf8(t);
                        let start = c.y * w + c.x;
                        if chars.len() > 0 && (c.x < 0 || start + chars.len() > tiles.len()) {
                            TagRun::Fails
                        } else {
                            run_tokens(
                                w,
                                write_run(tiles, start, chars, Some(c.fg), Some(c.bg)),
                                rest,
                                TagCursor { x: c.x + chars.len(), ..c },
                                newline_x,
                                clear,
                            )
                        }
                    },
                    TokenView::Space => {
                        let start = c.y * w + c.x;
                        if c.x < 0 || start + 1 > tiles.len() {
                            TagRun::Fails
                        } else {
                            run_tokens(
                                w,
                                write_run(tiles, start, seq![' '], Some(c.fg), Some(c.bg)),
                                rest,
                                TagCursor { x: c.x + 1, ..c },
                                newline_x,
                                clear,
                            )
                        }
                    },
                    TokenView::Newline => if c.y - 1 < 0 {
                        TagRun::Halted(tiles)
                    } else {
                        run_tokens(
                            w,
                            tiles,
                            rest,
                            TagCursor { x: newline_x, y: c.y - 1, ..c },
                            newline_x,
                            clear,
                        )
                    },
                    TokenView::FgStart(col, _) => run_tokens(
                        w,
                        tiles,
                        rest,
                        TagCursor { fg: col, ..c },
                        newline_x,
                        clear,
                    ),
                    TokenView::BgStart(col, _) => run_tokens(
                        w,
                        tiles,
                        rest,
                        TagCursor { bg: col, ..c },
                        newline_x,
                        clear,
                    ),
                    TokenView::FgEnd => run_tokens(
                        w,
                        tiles,
                        rest,
                        TagCursor { fg: clear.fg_color, ..c },
                        newline_x,
                        clear,
                    ),
                    TokenView::BgEnd => run_tokens(
                        w,
                        tiles,
                        rest,
                        TagCursor { bg: clear.bg_color, ..c },
                        newline_x,
                        clear,
                    ),
                }
            },
        }
    }
}

/// Writing the lines of a tagged string: the line with UTF-8 bytes `line`
/// and `count` visible characters is moved left by [align_shift] of `count`
/// and its tokens written from cursor `c`; each further line comes from
/// wrapping `rem` with [tagged_wrap] and starts at column `newline_x` one row
/// below where the cursor ended, keeping its colors. Writing stops below the
/// bottom row.
#[verifier::opaque]
pub open spec fn run_tagged(
    w: int,
    tiles: Seq<Tile>,
    c: TagCursor,
    line: Seq<u8>,
    count: int,
    rem: Seq<u8>,
    newline_x: int,
    max_len: int,
    word_wrap: bool,
    xh: int,
    clear: Tile,
) -> TagRun
    decreases 2 * rem.len() + if line.len() > 0 {
        1int
    } else {
        0int
    },
{
    if line.len() == 0 && rem.len() == 0 {
        TagRun::Going(tiles, c)
    } else {
        match run_tokens(
            w,
            tiles,
            line,
            TagCursor { x: c.x - align_shift(xh, count), ..c },
            newline_x,
            clear,
        ) {
            TagRun::Going(t, c1) => if !tagged_wrap_ok(rem, max_len, word_wrap) {
                TagRun::Fails
            } else {
                match tagged_wrap(rem, max_len, word_wrap) {
                    Err(_) => TagRun::Fails,
                    Ok((l2, n2, r2)) => if c1.y - 1 < 0 {
                        TagRun::Halted(t)
                    } else if rem.len() == 0 {
                        TagRun::Going(t, TagCursor { x: newline_x, y: c1.y - 1, ..c1 })
                    } else if encode_utf8(r2).len() < rem.len() {
                        run_tagged(
                            w,
                            t,
                            TagCursor { x: newline_x, y: c1.y - 1, ..c1 },
                            encode_utf8(l2),
                            n2,
                            encode_utf8(r2),
                            newline_x,
                            max_len,
                            word_wrap,
                            xh,
                            clear,
                        )
                    } else {
                        TagRun::Fails
                    },
                }
            },
            other => other,
        }
    }
}

/// The rest of [run_tagged] once the tokens of a line have been written with
/// the result `r`.
pub open spec fn line_then(
    w: int,
    r: TagRun,
    rem: Seq<u8>,
    newline_x: int,
    max_len: int,
    word_wrap: bool,
    xh: int,
    clear: Tile,
) -> TagRun {
    match r {
        TagRun::Going(t, c1) => if !tagged_wrap_ok(rem, max_len, word_wrap) {
            TagRun::Fails
        } else {
            match tagged_wrap(rem, max_len, word_wrap) {
                Err(_) => TagRun::Fails,
                Ok((l2, n2, r2)) => if c1.y - 1 < 0 {
                    TagRun::Halted(t)
                } else if rem.len() == 0 {
                    TagRun::Going(t, TagCursor { x: newline_x, y: c1.y - 1, ..c1 })
                } else if encode_utf8(r2).len() < rem.len() {
                    run_tagged(
                        w,
                        t,
                        TagCursor { x: newline_x, y: c1.y - 1, ..c1 },
                        encode_utf8(l2),
                        n2,
                        encode_utf8(r2),
                        newline_x,
                        max_len,
                        word_wrap,
                        xh,
                        clear,
                    )
                } else {
                    TagRun::Fails
                },
            }
        },
        other => other,
    }
}

/// Writing the lines of a tagged string is writing the tokens of its first
/// line, then what [line_then] describes.
pub proof fn lemma_run_tagged_unfold(
    w: int,
    tiles: Seq<Tile>,
    c: TagCursor,
    line: Seq<u8>,
    count: int,
    rem: Seq<u8>,
    newline_x: int,
    max_len: int,
    word_wrap: bool,
    xh: int,
    clear: Tile,
)
    ensures
        run_tagged(w, tiles, c, line, count, rem, newline_x, max_len, word_wrap, xh, clear) == if line.len()
            == 0 && rem.len() == 0 {
            TagRun::Going(tiles, c)
        } else {
            line_then(
                w,
                run_tokens(
                    w,
                    tiles,
                    line,
                    TagCursor { x: c.x - align_shift(xh, count), ..c },
                    newline_x,
                    clear,
                ),
                rem,
                newline_x,
                max_len,
                word_wrap,
                xh,
                clear,
            )
        },
{
    reveal(run_tagged);
}

/// The tiles after writing the tagged string `s` at `(ox, oy)`, measured
/// from the terminal's pivot, or `None` where writing it panics.
///
/// The string is wrapped with [tagged_wrap] to the padded width, its first
/// line to that less the distance of `ox` from 0. Its lines are moved up by
/// [line_shift] of their count and written one row apart as [run_tagged]
/// describes, starting with the colors of the clear tile.
pub open spec fn tagged_put(v: TerminalView, ox: int, oy: int, s: Seq<u8>, word_wrap: bool) -> Option<
    Seq<Tile>,
> {
    let max_len = v.inner_width();
    let first_len = max_len - (if ox < 0 {
        -ox
    } else {
        ox
    });
    if first_len < 0 || s.len() > max_put_len() || !tagged_wrap_ok(s, first_len, word_wrap) {
        None
    } else {
        match tagged_wrap(s, first_len, word_wrap) {
            Err(_) => None,
            Ok((l, n, r)) => {
                let rb = encode_utf8(r);
                if !(r.len() == 0 || tagged_lines_ok(rb, max_len, word_wrap)) {
                    None
                } else {
                    let counted = if r.len() == 0 {
                        Ok(0nat)
                    } else {
                        tagged_lines(rb, max_len, word_wrap)
                    };
                    match (v.transform(ox, oy), counted, v.transform(0, 0)) {
                        (Some(p), Ok(more), Some(z)) => run_tiles(
                            run_tagged(
                                v.width as int,
                                v.tiles,
                                TagCursor {
                                    x: p.0,
                                    y: p.1 + line_shift(v.pivot.y_halves(), 1 + more as int),
                                    fg: v.clear_tile.fg_color,
                                    bg: v.clear_tile.bg_color,
                                },
                                encode_utf8(l),
                                n,
                                rb,
                                z.0,
                                max_len,
                                word_wrap,
                                v.pivot.x_halves(),
                                v.clear_tile,
                            ),
                        ),
                        _ => None,
                    }
                }
            },
        }
    }
}

impl Terminal {
    /// The number of tiles, as an `i64`.
    fn tile_len_i64(&self) -> (r: i64)
        requires
            self.wf(),
        ensures
            r == self@.tiles.len(),
    {
        let n = self.tile_count();
        proof {
            let v = self@;
            assert(v.tiles.len() <= i32::MAX * i32::MAX) by (nonlinear_arith)
                requires
                    v.tiles.len() == v.width * v.height,
                    v.width <= i32::MAX,
                    v.height <= i32::MAX,
            ;
        }
        n as i64
    }

    /// Write the tokens of one line of a tagged string from column `x` of row
    /// `y` with colors `fg` and `bg`, as [run_tokens] describes. Returns the
    /// cursor where writing goes on, `Some(None)` where it stopped below the
    /// bottom row, or `None` where writing fails (and leaves what it wrote).
    fn put_tokens(
        &mut self,
        line: &str,
        x: i64,
        y: i64,
        fg: Color,
        bg: Color,
        newline_x: i64,
        clear: Tile,
    ) -> (r: Option<Option<(i64, i64, Color, Color)>>)
        requires
            old(self).wf(),
            0 <= newline_x < old(self)@.width,
            0 <= y <= old(self)@.height + max_put_len() + 1,
            -(i32::MAX + max_put_len()) <= x <= old(self)@.width + max_put_len(),
            line.spec_bytes().len() <= max_put_len(),
        ensures
            final(self).wf(),
            final(self)@ == old(self)@.with_tiles(final(self)@.tiles),
            match run_tokens(
                old(self)@.width as int,
                old(self)@.tiles,
                line.spec_bytes(),
                TagCursor { x: x as int, y: y as int, fg, bg },
                newline_x as int,
                clear,
            ) {
                TagRun::Going(t, c) => r matches Some(Some(q)) && final(self)@.tiles == t && q.0
                    == c.x && q.1 == c.y && q.2 == c.fg && q.3 == c.bg && 0 <= q.1 <= y,
                TagRun::Halted(t) => r == Some(None::<(i64, i64, Color, Color)>)
                    && final(self)@.tiles == t,
                TagRun::Fails => r is None,
            },
    {
        let ghost v = self@;
        let ghost first = run_tokens(
            v.width as int,
            v.tiles,
            line.spec_bytes(),
            TagCursor { x: x as int, y: y as int, fg, bg },
            newline_x as int,
            clear,
        );
        let w = self.width() as i64;
        let mut cx = x;
        let mut cy = y;
        let mut cfg = fg;
        let mut cbg = bg;
        let mut it = TokenIterator::new(line);
        loop
            invariant
                self.wf(),
                self@ == v.with_tiles(self@.tiles),
                v == old(self)@,
                v.wf(),
                w == v.width,
                0 <= newline_x < v.width,
                0 <= cy <= y <= v.height + max_put_len() + 1,
                -(i32::MAX + max_put_len()) <= cx,
                cx + it.remaining().spec_bytes().len() <= v.width + 2 * max_put_len(),
                it.remaining().spec_bytes().len() <= max_put_len(),
                first == run_tokens(
                    v.width as int,
                    v.tiles,
                    line.spec_bytes(),
                    TagCursor { x: x as int, y: y as int, fg, bg },
                    newline_x as int,
                    clear,
                ),
                run_tokens(
                    w as int,
                    self@.tiles,
                    it.remaining().spec_bytes(),
                    TagCursor { x: cx as int, y: cy as int, fg: cfg, bg: cbg },
                    newline_x as int,
                    clear,
                ) == first,
            decreases it.remaining().spec_bytes().len(),
        {
            let ghost rb = it.remaining().spec_bytes();
            proof {
                lemma_token_step_progress(rb);
            }
            if !it.can_read_next() {
                return None;
            }
            match it.next() {
                None => {
                    return Some(Some((cx, cy, cfg, cbg)));
                },
                Some(Err(_)) => {
                    return None;
                },
                Some(Ok(tok)) => {
                    match tok {
                        Token::Text(text) => {
                            let chars = chars_vec(text);
                            let n = chars.len();
                            proof {
                                assert(decode_utf8(text.spec_bytes()) == text@);
                                lemma_char_count_bound(text@);
                            }
                            if n > 0 {
                                proof {
                                    lemma_row_start_bound(cy as int, v.width as int, v.height as int);
                                }
                                if cx < 0 || cy * w + cx + n as i64 > self.tile_len_i64() {
                                    return None;
                                }
                                let idx = (cy * w + cx) as usize;
                                self.write_chars(idx, &chars, Some(cfg), Some(cbg));
                            } else {
                                proof {
                                    assert(write_run(self@.tiles, cy * w + cx, chars@, Some(cfg), Some(cbg))
                                        =~= self@.tiles);
                                }
                            }
                            cx = cx + n as i64;
                        },
                        Token::Space => {
                            proof {
                                lemma_row_start_bound(cy as int, v.width as int, v.height as int);
                            }
                            if cx < 0 || cy * w + cx + 1 > self.tile_len_i64() {
                                return None;
                            }
                            proof {
                                assert(write_run(self@.tiles, cy * w + cx, seq![' '], Some(cfg), Some(cbg))
                                    =~= self@.tiles.update(
                                    cy * w + cx,
                                    self@.tiles[cy * w + cx].patched(Some(' '), Some(cfg), Some(cbg)),
                                ));
                            }
                            let idx = (cy * w + cx) as usize;
                            self.write_glyph(idx, ' ', Some(cfg), Some(cbg));
                            cx = cx + 1;
                        },
                        Token::Newline => {
                            cx = newline_x;
                            cy = cy - 1;
                            if cy < 0 {
                                return Some(None);
                            }
                        },
                        Token::FgStart(c, _) => {
                            cfg = c;
                        },
                        Token::BgStart(c, _) => {
                            cbg = c;
                        },
                        Token::FgEnd => {
                            cfg = clear.fg_color;
                        },
                        Token::BgEnd => {
                            cbg = clear.bg_color;
                        },
                    }
                },
            }
        }
    }

    /// Write a tagged string at `xy`, measured from the terminal's pivot.
    ///
    /// The string is wrapped to the padded area; color tags color the text
    /// that follows them, starting from the clear tile's colors.
    pub fn put_string_tagged(&mut self, xy: [i32; 2], string: TerminalString<&str>)
        requires
            old(self).wf(),
            tagged_put(
                old(self)@,
                xy[0] as int,
                xy[1] as int,
                string.string.spec_bytes(),
                string.word_wrap,
            ) is Some,
        ensures
            final(self).wf(),
            final(self)@ == old(self)@.with_tiles(
                tagged_put(
                    old(self)@,
                    xy[0] as int,
                    xy[1] as int,
                    string.string.spec_bytes(),
                    string.word_wrap,
                )->0,
            ),
    {
        self.put_tagged_checked(xy, string);
    }

    /// Write a tagged string as [Self::put_string_tagged] does, and report
    /// whether [tagged_put] gives tiles for it. Where it gives none, writing
    /// stops where it would panic and the tiles may be partly written.
    fn put_tagged_checked(&mut self, xy: [i32; 2], string: TerminalString<&str>) -> (ok: bool)
        requires
            old(self).wf(),
        ensures
            final(self).wf(),
            final(self)@ == old(self)@.with_tiles(final(self)@.tiles),
            ok == tagged_put(
                old(self)@,
                xy[0] as int,
                xy[1] as int,
                string.string.spec_bytes(),
                string.word_wrap,
            ) is Some,
            ok ==> final(self)@.tiles == tagged_put(
                old(self)@,
                xy[0] as int,
                xy[1] as int,
                string.string.spec_bytes(),
                string.word_wrap,
            )->0,
    {
        let ghost v = self@;
        let ghost put = tagged_put(
            v,
            xy[0] as int,
            xy[1] as int,
            string.string.spec_bytes(),
            string.word_wrap,
        );
        proof {
            reveal(tagged_put);
        }
        let ww = string.word_wrap;
        let clear = self.clear_tile();
        let max_len = self.inner_width();
        let ax: usize = if xy[0] < 0 {
            (-(xy[0] as i64)) as usize
        } else {
            xy[0] as usize
        };
        if ax > max_len || string.string.as_bytes().len() > 0x100_0000 {
            return false;
        }
        let first_len = max_len - ax;
        let (mut line, mut count, mut rem) = match crate::strings::tagged_string::try_wrap_tagged_string(
            string.string,
            first_len,
            ww,
        ) {
            Some(Ok(r)) => r,
            _ => {
                return false;
            },
        };
        let start = match self.try_transform_point(xy) {
            Some(p) => p,
            None => {
                return false;
            },
        };
        let more = match crate::strings::tagged_string::try_wrap_tagged_line_count(rem, max_len, ww) {
            Some(Ok(c)) => c,
            _ => {
                return false;
            },
        };
        let newline_x = match self.try_transform_point([0, 0]) {
            Some(p) => p[0] as i64,
            None => {
                return false;
            },
        };
        let pivot = self.pivot();
        let xh = pivot.x_halves_exec();
        let mut x: i64 = start[0] as i64;
        let mut y: i64 = start[1] as i64 + line_shift_exec(pivot.y_halves_exec(), 1 + more);
        let mut fg = clear.fg_color;
        let mut bg = clear.bg_color;
        let w = self.width() as i64;
        while line.len() > 0 || rem.len() > 0
            invariant
                self.wf(),
                self@ == v.with_tiles(self@.tiles),
                v == old(self)@,
                put == tagged_put(
                    v,
                    xy[0] as int,
                    xy[1] as int,
                    string.string.spec_bytes(),
                    string.word_wrap,
                ),
                v.wf(),
                ww == string.word_wrap,
                w == v.width,
                0 <= newline_x < v.width,
                xh == v.pivot.x_halves(),
                clear == v.clear_tile,
                0 <= y <= v.height + max_put_len() + 1,
                -(max_put_len()) <= x <= v.width + max_put_len(),
                count <= max_len <= v.width,
                line.spec_bytes().len() <= max_put_len(),
                rem.spec_bytes().len() <= max_put_len(),
                run_tiles(
                    run_tagged(
                        w as int,
                        self@.tiles,
                        TagCursor { x: x as int, y: y as int, fg, bg },
                        line.spec_bytes(),
                        count as int,
                        rem.spec_bytes(),
                        newline_x as int,
                        max_len as int,
                        ww,
                        xh as int,
                        clear,
                    ),
                ) == put,
            decreases 2 * rem.spec_bytes().len() + if line.spec_bytes().len() > 0 {
                1int
            } else {
                0int
            },
        {
            proof {
                lemma_run_tagged_unfold(
                    w as int,
                    self@.tiles,
                    TagCursor { x: x as int, y: y as int, fg, bg },
                    line.spec_bytes(),
                    count as int,
                    rem.spec_bytes(),
                    newline_x as int,
                    max_len as int,
                    ww,
                    xh as int,
                    clear,
                );
            }
            x = x - align_shift_exec(xh, count);
            match self.put_tokens(line, x, y, fg, bg, newline_x, clear) {
                None => {
                    return false;
                },
                Some(None) => {
                    return true;
                },
                Some(Some(c)) => {
                    y = c.1;
                    fg = c.2;
                    bg = c.3;
                },
            }
            let next = match crate::strings::tagged_string::try_wrap_tagged_string(rem, max_len, ww) {
                Some(Ok(r)) => r,
                _ => {
                    return false;
                },
            };
            y = y - 1;
            if y < 0 || rem.len() == 0 {
                return true;
            }
            if next.2.len() >= rem.len() {
                return false;
            }
            line = next.0;
            count = next.1;
            rem = next.2;
            x = newline_x;
        }
        proof {
            lemma_run_tagged_unfold(
                w as int,
                self@.tiles,
                TagCursor { x: x as int, y: y as int, fg, bg },
                line.spec_bytes(),
                count as int,
                rem.spec_bytes(),
                newline_x as int,
                max_len as int,
                ww,
                xh as int,
                clear,
            );
        }
        true
    }
}

proof fn lemma_row_start_bound(y: int, w: int, h: int)
    requires
        0 <= y <= h + max_put_len() + 1,
        0 <= w <= i32::MAX,
        h <= i32::MAX,
    ensures
        0 <= y * w <= (i32::MAX + max_put_len() + 1) * i32::MAX,
{
    assert(0 <= y * w <= (h + max_put_len() + 1) * w) by (nonlinear_arith)
        requires
            0 <= y <= h + max_put_len() + 1,
            0 <= w,
    ;
    assert((h + max_put_len() + 1) * w <= (i32::MAX + max_put_len() + 1) * i32::MAX)
        by (nonlinear_arith)
        requires
            0 <= w <= i32::MAX,
            h <= i32::MAX,
    ;
}

/// The tiles after writing a terminal string at `(ox, oy)`, measured from the
/// terminal's pivot: tagged or plain as its settings say. `None` where
/// writing it panics.
pub open spec fn string_put(v: TerminalView, ox: int, oy: int, ts: TerminalString<&str>) -> Option<
    Seq<Tile>,
> {
    if ts.parse_tags {
        tagged_put(v, ox, oy, ts.string.spec_bytes(), ts.word_wrap)
    } else {
        plain_put(
            v,
            ox,
            oy,
            ts.string.spec_bytes(),
            ts.word_wrap,
            ts.clear_colors,
            ts.fg_color,
            ts.bg_color,
        )
    }
}

/// The terminal measured from the pivot of a pivoted point, if it has one.
pub open spec fn pivoted_view(v: TerminalView, pivot: Option<Pivot>) -> TerminalView {
    TerminalView { pivot: v.pivot_for(pivot), ..v }
}

/// The number of spaces that `s` starts with.
pub open spec fn leading_spaces(s: Seq<char>) -> nat
    decreases s.len(),
{
    if s.len() > 0 && s[0] == ' ' {
        1 + leading_spaces(s.drop_first())
    } else {
        0
    }
}

/// Where a title starts: after its leading spaces, or at 0 if it holds
/// nothing else.
pub open spec fn title_offset(s: Seq<char>) -> int {
    if leading_spaces(s) == s.len() {
        0
    } else {
        leading_spaces(s) as int
    }
}

/// The tiles after writing `title` to the top row, or `None` where writing it
/// panics: without its leading whitespace, as a tagged string with default
/// settings, from the top left corner of the whole terminal moved right by
/// [title_offset].
pub open spec fn title_put(v: TerminalView, title: Seq<char>) -> Option<Seq<Tile>> {
    if encode_utf8(title).len() > max_put_len() {
        None
    } else {
        tagged_put(
            TerminalView { padding: Padding::zero_spec(), pivot: Pivot::TopLeft, ..v },
            title_offset(title),
            0,
            encode_utf8(trim_start_seq(title)),
            true,
        )
    }
}

/// The `count` glyphs of row `line` that [Terminal::read_line] reads: the row
/// and its starting column come from the pivot, and the start moves left by
/// [align_shift] of `count`. `None` where reading panics.
pub open spec fn line_read(v: TerminalView, line: int, count: int) -> Option<Seq<char>> {
    if count < 1 || count > max_put_len() {
        None
    } else {
        match v.transform(0, line) {
            None => None,
            Some(p) => {
                let x = p.0 - align_shift(v.pivot.x_halves(), count);
                let i = v.index(x, p.1);
                if x < 0 || i + count > v.tiles.len() {
                    None
                } else {
                    Some(Seq::new(count as nat, |k: int| v.tiles[i + k].glyph))
                }
            },
        }
    }
}

proof fn lemma_leading_spaces_bound(s: Seq<char>)
    ensures
        leading_spaces(s) <= s.len(),
        forall|i: int| 0 <= i < leading_spaces(s) ==> s[i] == ' ',
        leading_spaces(s) < s.len() ==> s[leading_spaces(s) as int] != ' ',
    decreases s.len(),
{
    if s.len() > 0 && s[0] == ' ' {
        lemma_leading_spaces_bound(s.drop_first());
        assert forall|i: int| 0 <= i < leading_spaces(s) implies s[i] == ' ' by {
            if i > 0 {
                assert(s[i] == s.drop_first()[i - 1]);
            }
        }
    }
}

impl Terminal {
    /// Write a formatted string to the terminal at a point measured from the
    /// point's pivot, or the terminal's own pivot: tags are parsed unless the
    /// string's settings say otherwise.
    pub fn put_string(&mut self, xy: PivotedPoint, string: TerminalString<&str>)
        requires
            old(self).wf(),
            string_put(
                pivoted_view(old(self)@, xy.pivot),
                xy.point[0] as int,
                xy.point[1] as int,
                string,
            ) is Some,
        ensures
            final(self).wf(),
            final(self)@ == old(self)@.with_tiles(
                string_put(
                    pivoted_view(old(self)@, xy.pivot),
                    xy.point[0] as int,
                    xy.point[1] as int,
                    string,
                )->0,
            ),
    {
        let saved = self.pivot();
        if let Some(p) = xy.pivot {
            self.set_pivot(p);
        }
        if string.parse_tags {
            self.put_string_tagged(xy.point, string);
        } else {
            self.put_string_untagged(xy.point, &string);
        }
        self.set_pivot(saved);
    }

    /// Write a formatted string as [Self::put_string] does, where that does
    /// not panic, and report whether it was written; where it would panic,
    /// the terminal is left as it was.
    pub fn try_put_string(&mut self, xy: PivotedPoint, string: TerminalString<&str>) -> (r: bool)
        requires
            old(self).wf(),
        ensures
            final(self).wf(),
            r == string_put(
                pivoted_view(old(self)@, xy.pivot),
                xy.point[0] as int,
                xy.point[1] as int,
                string,
            ) is Some,
            r ==> final(self)@ == old(self)@.with_tiles(
                string_put(
                    pivoted_view(old(self)@, xy.pivot),
                    xy.point[0] as int,
                    xy.point[1] as int,
                    string,
                )->0,
            ),
            !r ==> final(self)@ == old(self)@,
    {
        let saved = self.copy_tiles();
        let saved_pivot = self.pivot();
        if let Some(p) = xy.pivot {
            self.set_pivot(p);
        }
        let ok = if string.parse_tags {
            self.put_tagged_checked(xy.point, string)
        } else {
            self.put_plain_checked(xy.point, &string)
        };
        self.set_pivot(saved_pivot);
        if !ok {
            self.restore_tiles(saved);
        }
        ok
    }

    /// Add a string to the terminal during creation, at the point measured
    /// from the terminal's pivot (the point's own pivot is not used).
    pub fn with_string(self, xy: PivotedPoint, string: TerminalString<&str>) -> (r: Self)
        requires
            self.wf(),
            string_put(self@, xy.point[0] as int, xy.point[1] as int, string) is Some,
        ensures
            r.wf(),
            r@ == self@.with_tiles(
                string_put(self@, xy.point[0] as int, xy.point[1] as int, string)->0,
            ),
    {
        let mut t = self;
        proof {
            assert(pivoted_view(t@, None) == t@);
        }
        t.put_string(PivotedPoint { point: xy.point, pivot: None }, string);
        t
    }

    /// Write a title to the top row of the terminal. Leading spaces offset
    /// the title.
    pub fn put_title(&mut self, title: TerminalString<&str>)
        requires
            old(self).wf(),
            title_put(old(self)@, title.string@) is Some,
        ensures
            final(self).wf(),
            final(self)@ == old(self)@.with_tiles(title_put(old(self)@, title.string@)->0),
    {
        let s = title.string;
        let chars = chars_vec(s);
        let n = chars.len();
        let mut off: usize = 0;
        proof {
            lemma_leading_spaces_bound(s@);
            lemma_char_count_bound(s@);
        }
        while off < n && chars[off] == ' '
            invariant
                n == s@.len(),
                chars@ == s@,
                off <= leading_spaces(s@),
                leading_spaces(s@) <= n,
                forall|i: int| 0 <= i < leading_spaces(s@) ==> s@[i] == ' ',
                leading_spaces(s@) < n ==> s@[leading_spaces(s@) as int] != ' ',
            decreases n - off,
        {
            off = off + 1;
        }
        if off == n {
            off = 0;
        }
        let trimmed = crate::strings::whitespace::trim_start(s);
        let saved_padding = self.padding();
        let saved_pivot = self.pivot();
        self.set_padding(Padding::zero());
        self.set_pivot(Pivot::TopLeft);
        self.put_string_tagged([off as i32, 0], TerminalString::new(trimmed));
        self.set_padding(saved_padding);
        self.set_pivot(saved_pivot);
    }

    /// Write a title as [Self::put_title] does, where that does not panic,
    /// and report whether it was written; where it would panic, the terminal
    /// is left as it was.
    pub fn try_put_title(&mut self, title: TerminalString<&str>) -> (r: bool)
        requires
            old(self).wf(),
        ensures
            final(self).wf(),
            r == title_put(old(self)@, title.string@) is Some,
            r ==> final(self)@ == old(self)@.with_tiles(title_put(old(self)@, title.string@)->0),
            !r ==> final(self)@ == old(self)@,
    {
        let s = title.string;
        if s.as_bytes().len() > 0x100_0000 {
            return false;
        }
        let chars = chars_vec(s);
        let n = chars.len();
        let mut off: usize = 0;
        proof {
            lemma_leading_spaces_bound(s@);
            lemma_char_count_bound(s@);
        }
        while off < n && chars[off] == ' '
            invariant
                n == s@.len(),
                chars@ == s@,
                off <= leading_spaces(s@),
                leading_spaces(s@) <= n,
                forall|i: int| 0 <= i < leading_spaces(s@) ==> s@[i] == ' ',
                leading_spaces(s@) < n ==> s@[leading_spaces(s@) as int] != ' ',
            decreases n - off,
        {
            off = off + 1;
        }
        if off == n {
            off = 0;
        }
        let trimmed = crate::strings::whitespace::trim_start(s);
        let saved = self.copy_tiles();
        let saved_padding = self.padding();
        let saved_pivot = self.pivot();
        self.set_padding(Padding::zero());
        self.set_pivot(Pivot::TopLeft);
        let ok = self.put_tagged_checked([off as i32, 0], TerminalString::new(trimmed));
        self.set_padding(saved_padding);
        self.set_pivot(saved_pivot);
        if !ok {
            self.restore_tiles(saved);
        }
        ok
    }

    /// Write a title to the top row of the terminal during creation.
    pub fn with_title(self, title: TerminalString<&str>) -> (r: Self)
        requires
            self.wf(),
            title_put(self@, title.string@) is Some,
        ensures
            r.wf(),
            r@ == self@.with_tiles(title_put(self@, title.string@)->0),
    {
        let mut t = self;
        t.put_title(title);
        t
    }

    /// Read `count` glyphs from a row as [Self::read_line] does, or `None`
    /// where reading them panics.
    pub fn try_read_line(&self, line: i32, count: usize) -> (r: Option<Vec<char>>)
        requires
            self.wf(),
        ensures
            match line_read(self@, line as int, count as int) {
                None => r is None,
                Some(s) => r matches Some(v) && v@ == s,
            },
    {
        if count < 1 || count > 0x100_0000 {
            return None;
        }
        let p = match self.try_transform_point([0, line]) {
            Some(p) => p,
            None => {
                return None;
            },
        };
        let xoff = align_shift_exec(self.pivot().x_halves_exec(), count);
        let x = p[0] as i64 - xoff;
        if x < 0 {
            return None;
        }
        let w = self.width() as i64;
        proof {
            let wi = self@.width as int;
            let hi = self@.height as int;
            assert(wi * hi <= 0x7fff_ffff * 0x7fff_ffff) by (nonlinear_arith)
                requires
                    0 <= wi <= 0x7fff_ffff,
                    0 <= hi <= 0x7fff_ffff,
            ;
            assert(0 <= p[1] * wi <= wi * hi) by (nonlinear_arith)
                requires
                    0 <= p[1] < hi,
                    0 <= wi,
            ;
        }
        let total = self.tile_count() as i64;
        proof {
            assert(0 <= p[1] < self@.height);
            crate::terminal::lemma_index_in_bounds(
                self@.width as int,
                self@.height as int,
                0,
                p[1] as int,
            );
        }
        if p[1] as i64 * w + x + count as i64 > total {
            return None;
        }
        Some(self.read_line(line, count))
    }

    /// Read `count` glyphs from a row, measured from the current pivot: the
    /// start moves left by the pivot's share of the count.
    pub fn read_line(&self, line: i32, count: usize) -> (r: Vec<char>)
        requires
            self.wf(),
            line_read(self@, line as int, count as int) is Some,
        ensures
            r@ == line_read(self@, line as int, count as int)->0,
    {
        let p = match self.try_transform_point([0, line]) {
            Some(p) => p,
            None => [0, 0],
        };
        let xoff = align_shift_exec(self.pivot().x_halves_exec(), count);
        let x = p[0] as i64 - xoff;
        let start = self.tile_to_index([x as i32, p[1]]);
        let tiles = self.tiles();
        let mut out: Vec<char> = Vec::new();
        let mut k: usize = 0;
        while k < count
            invariant
                self.wf(),
                k <= count,
                start + count <= tiles@.len(),
                tiles@ == self@.tiles,
                out@ == Seq::new(k as nat, |j: int| self@.tiles[start + j].glyph),
            decreases count - k,
        {
            out.push(tiles[start + k].glyph);
            k = k + 1;
            proof {
                assert(out@ =~= Seq::new(k as nat, |j: int| self@.tiles[start + j].glyph));
            }
        }
        out
    }
}

} // verus!
