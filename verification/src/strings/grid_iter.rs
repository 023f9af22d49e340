//! Positioning the characters of a string on a rectangle of a grid: wrapped
//! to the rectangle's width and aligned by a pivot.
use vstd::prelude::*;
use vstd::string::StringSliceAdditionalSpecFns;
use vstd::utf8::*;

use crate::color::Color;
use crate::grid_rect::GridRect;
use crate::pivot::{pivot_offset, Pivot, PivotedPoint};
use crate::strings::formatting::{default_formatting, no_decoration, StringDecoration, StringFormatting};
use crate::strings::grid_string::{
    grid_count, grid_lines_ok, grid_wrap, hor_offset, hor_pivot_offset, ver_offset,
    ver_pivot_offset, wrap_line,
};
use crate::strings::layout::fits_i32;
use crate::strings::utf8_text::chars_vec;

verus! {

broadcast use vstd::utf8::group_utf8_lib;

/// Calls `sark_grids::GridRect::pivot_point` on the rectangle at `pos` of
/// `size` tiles.
///
/// Claims: the result is `pos` moved by the pivot's position on the
/// rectangle, `(size - 1)` times the pivot's share of each side rounded half
/// away from zero, which is exact for sides of up to 2^24 tiles.
#[verifier::external_body]
fn rect_pivot_point(pos: [i32; 2], size: [u32; 2], pivot: Pivot) -> (r: [i32; 2])
    requires
        size[0] <= 0x100_0000,
        size[1] <= 0x100_0000,
        fits_i32(pos[0] + pivot_offset(size[0] as int, pivot.x_halves())),
        fits_i32(pos[1] + pivot_offset(size[1] as int, pivot.y_halves())),
    ensures
        r[0] == pos[0] + pivot_offset(size[0] as int, pivot.x_halves()),
        r[1] == pos[1] + pivot_offset(size[1] as int, pivot.y_halves()),
{
    let p = match pivot {
        Pivot::TopLeft => sark_grids::Pivot::TopLeft,
        Pivot::TopCenter => sark_grids::Pivot::TopCenter,
        Pivot::TopRight => sark_grids::Pivot::TopRight,
        Pivot::LeftCenter => sark_grids::Pivot::LeftCenter,
        Pivot::RightCenter => sark_grids::Pivot::RightCenter,
        Pivot::BottomLeft => sark_grids::Pivot::BottomLeft,
        Pivot::BottomCenter => sark_grids::Pivot::BottomCenter,
        Pivot::BottomRight => sark_grids::Pivot::BottomRight,
        Pivot::Center => sark_grids::Pivot::Center,
    };
    sark_grids::GridRect::new(pos, size).pivot_point(p).to_array()
}

/// Calls `sark_grids::GridRect::pivoted_point` on the rectangle at `pos` of
/// `size` tiles, for `point` measured from `pivot`.
///
/// Claims: the result is the rectangle's pivot point (as [rect_pivot_point]
/// states it) moved by `point` along the pivot's axes, which point left on
/// the right edge and down on the top edge.
#[verifier::external_body]
fn rect_pivoted_point(pos: [i32; 2], size: [u32; 2], point: [i32; 2], pivot: Pivot) -> (r: [i32; 2])
    requires
        size[0] <= 0x100_0000,
        size[1] <= 0x100_0000,
        fits_i32(pos[0] + pivot_offset(size[0] as int, pivot.x_halves())),
        fits_i32(pos[1] + pivot_offset(size[1] as int, pivot.y_halves())),
        fits_i32(pos[0] + pivot.place(point[0] as int, point[1] as int, size[0] as int, size[1] as int).0),
        fits_i32(pos[1] + pivot.place(point[0] as int, point[1] as int, size[0] as int, size[1] as int).1),
        fits_i32(pivot.along_x(point[0] as int)),
        fits_i32(pivot.along_y(point[1] as int)),
    ensures
        r[0] == pos[0] + pivot.place(point[0] as int, point[1] as int, size[0] as int, size[1] as int).0,
        r[1] == pos[1] + pivot.place(point[0] as int, point[1] as int, size[0] as int, size[1] as int).1,
{
    let p = match pivot {
        Pivot::TopLeft => sark_grids::Pivot::TopLeft,
        Pivot::TopCenter => sark_grids::Pivot::TopCenter,
        Pivot::TopRight => sark_grids::Pivot::TopRight,
        Pivot::LeftCenter => sark_grids::Pivot::LeftCenter,
        Pivot::RightCenter => sark_grids::Pivot::RightCenter,
        Pivot::BottomLeft => sark_grids::Pivot::BottomLeft,
        Pivot::BottomCenter => sark_grids::Pivot::BottomCenter,
        Pivot::BottomRight => sark_grids::Pivot::BottomRight,
        Pivot::Center => sark_grids::Pivot::Center,
    };
    sark_grids::GridRect::new(pos, size).pivoted_point(sark_grids::PivotedPoint::new(point, p)).to_array()
}

/// What positioning is given: the rectangle, the pivot, the formatting and
/// the colors.
pub struct GridSetup {
    pub pos: (int, int),
    pub width: int,
    pub height: int,
    pub pivot: Pivot,
    pub ignore_spaces: bool,
    pub word_wrap: bool,
    pub fg: Option<Color>,
    pub bg: Option<Color>,
}

/// Where positioning stands: the delimiters still to come, the rest of the
/// current line, the text after it, and the position of the next character.
pub struct GridState {
    pub open: Option<char>,
    pub close: Option<char>,
    pub current: Seq<char>,
    pub remaining: Seq<char>,
    pub x: int,
    pub y: int,
}

/// What the iterator yields: a position and a character with its colors.
pub type GridItem = ([i32; 2], (char, Option<Color>, Option<Color>));

/// The lexicographic order of the measure that each skipped space lowers.
pub open spec fn grid_smaller(a: GridState, b: GridState) -> bool {
    ||| a.remaining.len() < b.remaining.len()
    ||| a.remaining.len() == b.remaining.len() && a.current.len() < b.current.len()
    ||| a.remaining.len() == b.remaining.len() && a.current.len() == b.current.len() && a.open is None
        && b.open is Some
    ||| a.remaining.len() == b.remaining.len() && a.current.len() == b.current.len() && a.open
        == b.open && a.close is None && b.close is Some
}

/// The next character to position and the state after taking it: the
/// opening delimiter, then the characters of the current line, then those
/// of the next line that [grid_wrap] takes from the text, which moves the
/// position to the start of that line one row down (nothing is taken once
/// the row is below 0). `None` where a position leaves the range of `i32`.
pub open spec fn grid_take(c: GridSetup, s: GridState) -> Option<(Option<char>, GridState)> {
    if s.open is Some {
        Some((s.open, GridState { open: None, ..s }))
    } else if s.current.len() > 0 {
        Some((Some(s.current[0]), GridState { current: s.current.drop_first(), ..s }))
    } else {
        match grid_wrap(s.remaining, c.width, c.word_wrap) {
            None => Some((None, s)),
            Some((line, rem)) => {
                let n = encode_utf8(line).len() as int;
                let lx = c.pos.0 + pivot_offset(c.width, c.pivot.x_halves()) + hor_offset(c.pivot, n);
                let ly = s.y - 1;
                if n > 0x100_0000 || !fits_i32(lx) || !fits_i32(ly) || !fits_i32(
                    c.pos.0 + pivot_offset(c.width, c.pivot.x_halves()),
                ) {
                    None
                } else if ly < 0 {
                    Some((None, GridState { x: lx, y: ly, ..s }))
                } else if line.len() == 0 {
                    Some((None, GridState { x: lx, y: ly, remaining: rem, current: line, ..s }))
                } else {
                    Some(
                        (
                            Some(line[0]),
                            GridState {
                                x: lx,
                                y: ly,
                                remaining: rem,
                                current: line.drop_first(),
                                ..s
                            },
                        ),
                    )
                }
            },
        }
    }
}

/// The next positioned character and the state after it, or `None` for the
/// character once nothing is left; `None` overall where positioning panics.
///
/// A character is taken as [grid_take] describes, else the closing
/// delimiter; it is placed at the position, which moves right. Spaces are
/// skipped when the formatting ignores them.
pub open spec fn grid_next(c: GridSetup, s: GridState) -> Option<(Option<GridItem>, GridState)>
    decreases s.remaining.len(), s.current.len(), if s.open is Some {
        1int
    } else {
        0int
    }, if s.close is Some {
        1int
    } else {
        0int
    },
{
    match grid_take(c, s) {
        None => None,
        Some((taken, s1)) => {
            let s2 = if taken is None {
                GridState { close: None, ..s1 }
            } else {
                s1
            };
            let ch = if taken is None {
                s1.close
            } else {
                taken
            };
            match ch {
                None => Some((None, s2)),
                Some(chr) => if !fits_i32(s2.x + 1) {
                    None
                } else {
                    let s3 = GridState { x: s2.x + 1, ..s2 };
                    if chr == ' ' && c.ignore_spaces {
                        if grid_smaller(s3, s) {
                            grid_next(c, s3)
                        } else {
                            None
                        }
                    } else {
                        Some((Some(([s2.x as i32, s2.y as i32], (chr, c.fg, c.bg))), s3))
                    }
                },
            }
        },
    }
}

/// An iterator-like reader that positions string characters on a sized
/// rectangle of a grid, yielding each character with its position and colors.
///
/// It always wraps at newlines and strips leading and trailing whitespace past
/// the first line.
pub struct GridStringIterator<'a> {
    remaining: &'a str,
    rect: GridRect,
    x: i32,
    y: i32,
    pivot: Pivot,
    current: Vec<char>,
    pos_in_line: usize,
    formatting: StringFormatting,
    decoration: StringDecoration,
}

impl<'a> GridStringIterator<'a> {
    /// What positioning is given.
    pub closed spec fn setup(&self) -> GridSetup {
        GridSetup {
            pos: (self.rect.pos[0] as int, self.rect.pos[1] as int),
            width: self.rect.size[0] as int,
            height: self.rect.size[1] as int,
            pivot: self.pivot,
            ignore_spaces: self.formatting.ignore_spaces,
            word_wrap: self.formatting.word_wrap,
            fg: self.decoration.fg_color,
            bg: self.decoration.bg_color,
        }
    }

    /// Where positioning stands.
    pub closed spec fn state(&self) -> GridState {
        GridState {
            open: self.decoration.delimiters.0,
            close: self.decoration.delimiters.1,
            current: self.current@.skip(self.pos_in_line as int),
            remaining: self.remaining@,
            x: self.x as int,
            y: self.y as int,
        }
    }

    /// The reader's own invariant.
    pub closed spec fn wf(&self) -> bool {
        &&& self.pos_in_line <= self.current@.len()
        &&& self.rect.size[0] > 0
        &&& self.rect.size[0] <= 0x100_0000
        &&& self.rect.size[1] <= 0x100_0000
        &&& fits_i32(self.rect.pos[0] + pivot_offset(self.rect.size[0] as int, self.pivot.x_halves()))
        &&& fits_i32(self.rect.pos[1] + pivot_offset(self.rect.size[1] as int, self.pivot.y_halves()))
    }
}

/// The state a [GridStringIterator] starts in, as plain values.
pub open spec fn grid_start(
    string: Seq<char>,
    rect: GridRect,
    point: [i32; 2],
    pivot: Pivot,
    word_wrap: bool,
    dec: StringDecoration,
) -> GridState {
    let w = rect.size[0] as int;
    let h = rect.size[1] as int;
    let ax = if point[0] < 0 {
        -point[0]
    } else {
        point[0] as int
    };
    let first_max = if ax <= w {
        w - ax
    } else {
        0
    };
    let (first, rem) = match grid_wrap(string, first_max, word_wrap) {
        Some(p) => p,
        None => (Seq::empty(), Seq::empty()),
    };
    let ver = if pivot.y_halves() == 2 {
        0
    } else {
        ver_offset(pivot, grid_count(string, w, word_wrap) as int)
    };
    let at = pivot.place(point[0] as int, point[1] as int, w, h);
    GridState {
        open: dec.delimiters.0,
        close: dec.delimiters.1,
        current: first,
        remaining: rem,
        x: rect.pos[0] + at.0 + hor_offset(pivot, encode_utf8(first).len() as int),
        y: rect.pos[1] + at.1 + ver,
    }
}

/// The inputs on which [GridStringIterator::new] does not panic: the point,
/// measured from its pivot, lies on the rectangle and leaves room on the first
/// line, the sides fit in single precision floats exactly, the lines can be
/// counted where the pivot is not on the top edge, and the positions stay in
/// the range of `i32`.
pub open spec fn grid_start_ok(
    string: Seq<char>,
    rect: GridRect,
    point: [i32; 2],
    pivot: Pivot,
    word_wrap: bool,
) -> bool {
    let w = rect.size[0] as int;
    let h = rect.size[1] as int;
    let at = pivot.place(point[0] as int, point[1] as int, w, h);
    let start = grid_start(string, rect, point, pivot, word_wrap, no_decoration());
    &&& 0 < w <= 0x100_0000
    &&& h <= 0x100_0000
    &&& encode_utf8(string).len() <= 0x100_0000
    &&& 0 <= at.0 < w
    &&& 0 <= at.1 < h
    &&& point[0] < w && -point[0] < w
    &&& pivot.y_halves() != 2 ==> grid_lines_ok(string, w, word_wrap) && grid_count(string, w, word_wrap)
        <= 0x100_0000
    &&& fits_i32(rect.pos[0] + pivot_offset(w, pivot.x_halves()))
    &&& fits_i32(rect.pos[1] + pivot_offset(h, pivot.y_halves()))
    &&& fits_i32(rect.pos[0] + at.0)
    &&& fits_i32(rect.pos[1] + at.1)
    &&& fits_i32(pivot.along_x(point[0] as int))
    &&& fits_i32(pivot.along_y(point[1] as int))
    &&& fits_i32(start.x)
    &&& fits_i32(start.y)
}

impl<'a> GridStringIterator<'a> {
    /// Position `string` on `rect`, starting at `local_xy` measured from its
    /// pivot (the top left where it has none).
    pub fn new(
        string: &'a str,
        rect: GridRect,
        local_xy: PivotedPoint,
        formatting: Option<StringFormatting>,
        decoration: Option<StringDecoration>,
    ) -> (r: Self)
        requires
            grid_start_ok(
                string@,
                rect,
                local_xy.point,
                match local_xy.pivot {
                    Some(p) => p,
                    None => Pivot::TopLeft,
                },
                match formatting {
                    Some(f) => f.word_wrap,
                    None => true,
                },
            ),
        ensures
            r.wf(),
            ({
                let pivot = match local_xy.pivot {
                    Some(p) => p,
                    None => Pivot::TopLeft,
                };
                let fmt = match formatting {
                    Some(f) => f,
                    None => default_formatting(),
                };
                let dec = match decoration {
                    Some(d) => d,
                    None => no_decoration(),
                };
                &&& r.setup() == (GridSetup {
                    pos: (rect.pos[0] as int, rect.pos[1] as int),
                    width: rect.size[0] as int,
                    height: rect.size[1] as int,
                    pivot,
                    ignore_spaces: fmt.ignore_spaces,
                    word_wrap: fmt.word_wrap,
                    fg: dec.fg_color,
                    bg: dec.bg_color,
                })
                &&& r.state() == grid_start(string@, rect, local_xy.point, pivot, fmt.word_wrap, dec)
            }),
    {
        let pivot = match local_xy.pivot {
            Some(p) => p,
            None => Pivot::TopLeft,
        };
        let point = local_xy.point;
        let formatting = match formatting {
            Some(f) => f,
            None => StringFormatting::default(),
        };
        let decoration = match decoration {
            Some(d) => d,
            None => crate::strings::formatting::plain_decoration(),
        };
        let w = rect.width();
        let ax: usize = if point[0] < 0 {
            (-(point[0] as i64)) as usize
        } else {
            point[0] as usize
        };
        let first_max = w - ax;
        let (first, remaining) = match wrap_line(string, first_max, formatting.word_wrap) {
            Some(p) => p,
            None => ("", ""),
        };
        proof {
            reveal_strlit("");
            assert(""@ =~= Seq::<char>::empty());
            crate::terminal::put::lemma_char_count_bound(first@);
        }
        let horizontal_offset = hor_pivot_offset(pivot, first.len());
        let vertical_offset = ver_pivot_offset(string, pivot, w, formatting.word_wrap);
        let xy = rect_pivoted_point(rect.pos, rect.size, point, pivot);
        let current = chars_vec(first);
        proof {
            assert(current@.skip(0) =~= current@);
        }
        GridStringIterator {
            remaining,
            rect,
            x: xy[0] + horizontal_offset,
            y: xy[1] + vertical_offset,
            pivot,
            current,
            pos_in_line: 0,
            formatting,
            decoration,
        }
    }
}

impl<'a> GridStringIterator<'a> {
    /// The next character with its position and colors, or `None` once the
    /// string is used up, as [grid_next] describes.
    #[verifier::rlimit(60)]
    pub fn next(&mut self) -> (r: Option<GridItem>)
        requires
            old(self).wf(),
            grid_next(old(self).setup(), old(self).state()) is Some,
        ensures
            final(self).wf(),
            final(self).setup() == old(self).setup(),
            grid_next(old(self).setup(), old(self).state()) == Some((r, final(self).state())),
    {
        let ghost setup = self.setup();
        let ghost result = grid_next(self.setup(), self.state());
        loop
            invariant
                self.wf(),
                self.setup() == setup,
                setup == old(self).setup(),
                result == grid_next(old(self).setup(), old(self).state()),
                result is Some,
                grid_next(setup, self.state()) == result,
            decreases self.state().remaining.len(), self.state().current.len(), if self.state().open is Some {
                1int
            } else {
                0int
            }, if self.state().close is Some {
                1int
            } else {
                0int
            },
        {
            let ghost before = self.state();
            let mut taken: Option<char> = None;
            if let Some(ch) = self.decoration.delimiters.0 {
                self.decoration.delimiters.0 = None;
                taken = Some(ch);
            } else if self.pos_in_line < self.current.len() {
                let ch = self.current[self.pos_in_line];
                proof {
                    assert(self.current@.skip(self.pos_in_line + 1) =~= self.current@.skip(
                        self.pos_in_line as int,
                    ).drop_first());
                }
                self.pos_in_line = self.pos_in_line + 1;
                taken = Some(ch);
            } else {
                match wrap_line(self.remaining, self.rect.width(), self.formatting.word_wrap) {
                    None => {},
                    Some((line, rem)) => {
                        let origin = rect_pivot_point(self.rect.pos, self.rect.size, self.pivot);
                        let offset = hor_pivot_offset(self.pivot, line.len());
                        self.x = origin[0] + offset;
                        self.y = self.y - 1;
                        if self.y >= 0 {
                            self.remaining = rem;
                            self.current = chars_vec(line);
                            proof {
                                assert(self.current@.skip(0) =~= self.current@);
                            }
                            if self.current.len() > 0 {
                                proof {
                                    assert(self.current@.skip(1) =~= self.current@.drop_first());
                                }
                                self.pos_in_line = 1;
                                taken = Some(self.current[0]);
                            } else {
                                self.pos_in_line = 0;
                            }
                        }
                    },
                }
            }
            let ch = match taken {
                Some(c) => Some(c),
                None => {
                    let c = self.decoration.delimiters.1;
                    self.decoration.delimiters.1 = None;
                    c
                },
            };
            match ch {
                None => {
                    return None;
                },
                Some(chr) => {
                    let p = [self.x, self.y];
                    self.x = self.x + 1;
                    if chr == ' ' && self.formatting.ignore_spaces {
                        continue ;
                    }
                    return Some((p, (chr, self.decoration.fg_color, self.decoration.bg_color)));
                },
            }
        }
    }
}

} // verus!
