//! A box of tiles on a terminal: an optional fill and an optional border.
use vstd::prelude::*;

use crate::color::{Color, BLACK, WHITE};
use crate::padding::{double_line_style, single_line_style, BoxStyle};
use crate::terminal::draw::{box_writes, lemma_put_all_in_bounds, put_all, write_color};
use crate::terminal::{Terminal, TerminalView};
use crate::tile::Tile;

verus! {

/// The parts of a tile that a fill writes; the parts left `None` keep what
/// the terminal has.
#[derive(Debug, Clone, Copy, PartialEq, Eq, Structural)]
pub struct FormattedTile {
    pub glyph: Option<char>,
    pub fg_color: Option<Color>,
    pub bg_color: Option<Color>,
}

impl FormattedTile {
    /// A format that writes nothing.
    pub fn new() -> (r: FormattedTile)
        ensures
            r == (FormattedTile { glyph: None, fg_color: None, bg_color: None }),
    {
        FormattedTile { glyph: None, fg_color: None, bg_color: None }
    }

    /// A format that writes a default tile: a space, white on black.
    pub fn clear() -> (r: FormattedTile)
        ensures
            r == (FormattedTile { glyph: Some(' '), fg_color: Some(WHITE), bg_color: Some(BLACK) }),
    {
        FormattedTile { glyph: Some(' '), fg_color: Some(WHITE), bg_color: Some(BLACK) }
    }

    /// Also write the glyph `glyph`.
    pub fn glyph(self, glyph: char) -> (r: FormattedTile)
        ensures
            r == (FormattedTile { glyph: Some(glyph), ..self }),
    {
        FormattedTile { glyph: Some(glyph), ..self }
    }

    /// Also write the foreground color `color`.
    pub fn fg(self, color: Color) -> (r: FormattedTile)
        ensures
            r == (FormattedTile { fg_color: Some(color), ..self }),
    {
        FormattedTile { fg_color: Some(color), ..self }
    }

    /// Also write the background color `color`.
    pub fn bg(self, color: Color) -> (r: FormattedTile)
        ensures
            r == (FormattedTile { bg_color: Some(color), ..self }),
    {
        FormattedTile { bg_color: Some(color), ..self }
    }
}

/// The tiles after the first `cols` tiles of row `row`, from column `x` on,
/// take the parts that `f` writes.
pub open spec fn fill_row(t: Seq<Tile>, w: int, x: int, row: int, cols: int, f: FormattedTile) -> Seq<
    Tile,
>
    decreases cols,
{
    if cols <= 0 {
        t
    } else {
        let prev = fill_row(t, w, x, row, cols - 1, f);
        let i = row * w + x + cols - 1;
        prev.update(i, prev[i].patched(f.glyph, f.fg_color, f.bg_color))
    }
}

/// The tiles after the rectangle of `cols` by `rows` tiles with its bottom
/// left corner at `(x, y)` takes the parts that `f` writes, row by row from
/// the bottom.
pub open spec fn fill_rect(
    t: Seq<Tile>,
    w: int,
    x: int,
    y: int,
    cols: int,
    rows: int,
    f: FormattedTile,
) -> Seq<Tile>
    decreases rows,
{
    if rows <= 0 {
        t
    } else {
        fill_row(fill_rect(t, w, x, y, cols, rows - 1, f), w, x, y + rows - 1, cols, f)
    }
}

/// The glyphs and colors to use when drawing a box on the terminal.
#[derive(Debug, Clone, Copy, PartialEq, Eq, Structural)]
pub struct UiBox {
    /// Optional glyphs to be drawn on the border of the box, with the colors
    /// the style gives.
    pub border_glyphs: Option<BoxStyle>,
    /// Optional tile to fill the box with.
    pub fill_tile: Option<FormattedTile>,
}

/// The tiles of `v` after the box `b` is drawn with its bottom left corner at
/// `(x, y)` and a size of `w` by `h` tiles: first the fill over the whole
/// area, then the border.
pub open spec fn ui_box_tiles(b: UiBox, v: TerminalView, x: int, y: int, w: int, h: int) -> Seq<
    Tile,
> {
    let filled = match b.fill_tile {
        None => v.tiles,
        Some(f) => fill_rect(v.tiles, v.width as int, x, y, w, h, f),
    };
    match b.border_glyphs {
        None => filled,
        Some(s) => put_all(
            v.width as int,
            filled,
            box_writes(x, y, w, h, s),
            write_color(s.fg_color, v.clear_tile.fg_color),
            write_color(s.bg_color, v.clear_tile.bg_color),
        )->0,
    }
}

impl Default for UiBox {
    fn default() -> (r: Self)
        ensures
            r == (UiBox { border_glyphs: None, fill_tile: None }),
    {
        UiBox { border_glyphs: None, fill_tile: None }
    }
}

impl UiBox {
    /// A box with no border and no fill.
    pub fn new() -> (r: Self)
        ensures
            r == (UiBox { border_glyphs: None, fill_tile: None }),
    {
        UiBox::default()
    }

    /// Create a hollow UiBox with a single line border.
    pub fn single_line() -> (r: Self)
        ensures
            r == (UiBox { border_glyphs: Some(single_line_style()), fill_tile: None }),
    {
        UiBox::new().with_border(BoxStyle::single_line())
    }

    /// Create a hollow UiBox with a double line border.
    pub fn double_line() -> (r: Self)
        ensures
            r == (UiBox { border_glyphs: Some(double_line_style()), fill_tile: None }),
    {
        UiBox::new().with_border(BoxStyle::double_line())
    }

    /// Specify the border glyphs for the box.
    pub fn with_border(self, glyphs: BoxStyle) -> (r: Self)
        ensures
            r == (UiBox { border_glyphs: Some(glyphs), ..self }),
    {
        UiBox { border_glyphs: Some(glyphs), ..self }
    }

    /// Specify the optional fill tile for the box.
    ///
    /// If specified, the fill tile will be drawn to the whole area of the box
    /// before the border is drawn. If no border is specified the entire box
    /// will be filled.
    pub fn filled(self, fill_tile: FormattedTile) -> (r: UiBox)
        ensures
            r == (UiBox { fill_tile: Some(fill_tile), ..self }),
    {
        UiBox { fill_tile: Some(fill_tile), ..self }
    }

    /// A box which will apply the given foreground and background colors,
    /// without affecting existing glyphs.
    pub fn color_fill(self, fg: Color, bg: Color) -> (r: UiBox)
        ensures
            r == (UiBox {
                fill_tile: Some(FormattedTile { glyph: None, fg_color: Some(fg), bg_color: Some(bg) }),
                ..self
            }),
    {
        self.filled(FormattedTile::new().fg(fg).bg(bg))
    }

    /// Clear the entire area of the box to default tiles before drawing the
    /// border.
    pub fn cleared(self) -> (r: Self)
        ensures
            r == (UiBox {
                fill_tile: Some(
                    FormattedTile { glyph: Some(' '), fg_color: Some(WHITE), bg_color: Some(BLACK) },
                ),
                ..self
            }),
    {
        self.filled(FormattedTile::clear())
    }
    /// Draw the box on a terminal with its bottom left corner at `xy`, from
    /// the bottom left of the terminal, and a size of `size` tiles: the fill
    /// over the whole area first, then the border.
    pub fn draw(&self, xy: [i32; 2], size: [u32; 2], term: &mut Terminal)
        requires
            old(term).wf(),
            size[0] >= 1,
            size[1] >= 1,
            xy[0] >= 0,
            xy[1] >= 0,
            xy[0] + size[0] <= old(term)@.width,
            xy[1] + size[1] <= old(term)@.height,
        ensures
            final(term).wf(),
            final(term)@ == old(term)@.with_tiles(
                ui_box_tiles(
                    *self,
                    old(term)@,
                    xy[0] as int,
                    xy[1] as int,
                    size[0] as int,
                    size[1] as int,
                ),
            ),
    {
        let ghost v = term@;
        let x0 = xy[0];
        let y0 = xy[1];
        let w = size[0] as i32;
        let h = size[1] as i32;
        if let Some(fill) = self.fill_tile {
            let mut row: i32 = 0;
            while row < h
                invariant
                    term.wf(),
                    term@ == v.with_tiles(term@.tiles),
                    v.wf(),
                    0 <= row <= h,
                    w == size[0],
                    h == size[1],
                    x0 == xy[0],
                    y0 == xy[1],
                    0 <= x0,
                    0 <= y0,
                    x0 + w <= v.width,
                    y0 + h <= v.height,
                    term@.tiles == fill_rect(v.tiles, v.width as int, x0 as int, y0 as int, w as int, row as int, fill),
                decreases h - row,
            {
                let ghost before = term@.tiles;
                let mut col: i32 = 0;
                while col < w
                    invariant
                        term.wf(),
                        term@ == v.with_tiles(term@.tiles),
                        v.wf(),
                        0 <= row < h,
                        0 <= col <= w,
                        w == size[0],
                        h == size[1],
                        x0 == xy[0],
                        y0 == xy[1],
                        0 <= x0,
                        0 <= y0,
                        x0 + w <= v.width,
                        y0 + h <= v.height,
                        before == fill_rect(v.tiles, v.width as int, x0 as int, y0 as int, w as int, row as int, fill),
                        term@.tiles == fill_row(before, v.width as int, x0 as int, (y0 + row) as int, col as int, fill),
                    decreases w - col,
                {
                    proof {
                        crate::terminal::lemma_index_in_bounds(
                            v.width as int,
                            v.height as int,
                            (x0 + col) as int,
                            (y0 + row) as int,
                        );
                    }
                    term.maybe_put([x0 + col, y0 + row], fill.glyph, fill.fg_color, fill.bg_color);
                    col = col + 1;
                }
                row = row + 1;
            }
        }
        let ghost filled = term@.tiles;
        assert(filled == match self.fill_tile {
            None => v.tiles,
            Some(f) => fill_rect(v.tiles, v.width as int, x0 as int, y0 as int, w as int, h as int, f),
        });
        if let Some(style) = self.border_glyphs {
            proof {
                let ws = box_writes(x0 as int, y0 as int, w as int, h as int, style);
                assert forall|j: int| 0 <= j < ws.len() implies 0 <= (#[trigger] ws[j]).0 && 0
                    <= ws[j].1 && ws[j].1 * v.width + ws[j].0 < filled.len() by {
                    crate::terminal::lemma_index_in_bounds(
                        v.width as int,
                        v.height as int,
                        ws[j].0,
                        ws[j].1,
                    );
                }
                lemma_put_all_in_bounds(
                    v.width as int,
                    filled,
                    ws,
                    write_color(style.fg_color, v.clear_tile.fg_color),
                    write_color(style.bg_color, v.clear_tile.bg_color),
                );
            }
            term.put_box(xy, size, style);
        }
    }
}

} // verus!
