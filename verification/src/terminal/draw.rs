//! Drawing boxes and borders on a terminal, and clearing its inner area.
use vstd::prelude::*;

use crate::color::Color;
use crate::padding::{BoxStyle, ColorWrite, Padding};
use crate::terminal::{padding_ok, Terminal, TerminalView};
use crate::tile::Tile;

verus! {

/// The tiles after writing each `(x, y, glyph)` of `ws` in turn at index
/// `y * w + x`, with the colors that are given; `None` where a write falls
/// before the origin or past the last tile.
pub open spec fn put_all(
    w: int,
    tiles: Seq<Tile>,
    ws: Seq<(int, int, char)>,
    fg: Option<Color>,
    bg: Option<Color>,
) -> Option<Seq<Tile>>
    decreases ws.len(),
{
    if ws.len() == 0 {
        Some(tiles)
    } else {
        match put_all(w, tiles, ws.drop_last(), fg, bg) {
            None => None,
            Some(t) => {
                let (x, y, g) = ws.last();
                let i = y * w + x;
                if x < 0 || y < 0 || i >= t.len() {
                    None
                } else {
                    Some(t.update(i, t[i].patched(Some(g), fg, bg)))
                }
            },
        }
    }
}

/// The number of tiles strictly between the two ends of a side `n` tiles long.
pub open spec fn inner_span(n: int) -> int {
    if n >= 2 {
        n - 2
    } else {
        0
    }
}

/// The glyphs a box of `w` by `h` tiles with its bottom left corner at
/// `(x, y)` writes, in order: the bottom left, top left, bottom right and top
/// right corners; then, from left to right, each tile of the bottom edge
/// followed by the one above it on the top edge; then, from the bottom up,
/// each tile of the left edge followed by the one beside it on the right edge.
pub open spec fn box_writes(x: int, y: int, w: int, h: int, s: BoxStyle) -> Seq<(int, int, char)> {
    seq![
        (x, y, s.bottom_left),
        (x, y + h - 1, s.top_left),
        (x + w - 1, y, s.bottom_right),
        (x + w - 1, y + h - 1, s.top_right),
    ] + Seq::new(
        (2 * inner_span(w)) as nat,
        |k: int|
            if k % 2 == 0 {
                (x + 1 + k / 2, y, s.bottom_center)
            } else {
                (x + 1 + k / 2, y + h - 1, s.top_center)
            },
    ) + Seq::new(
        (2 * inner_span(h)) as nat,
        |k: int|
            if k % 2 == 0 {
                (x, y + 1 + k / 2, s.center_left)
            } else {
                (x + w - 1, y + 1 + k / 2, s.center_right)
            },
    )
}

/// The color a box writes: none, the terminal's clear color, or its own.
pub open spec fn write_color(cw: Option<ColorWrite>, clear: Color) -> Option<Color> {
    match cw {
        None => None,
        Some(ColorWrite::Clear) => Some(clear),
        Some(ColorWrite::Color(c)) => Some(c),
    }
}

/// The padding a border drawn with `s` sets: one tile on each side that has
/// a glyph other than a space.
pub open spec fn border_padding(s: BoxStyle) -> Padding {
    Padding {
        left: if s.top_left != ' ' || s.center_left != ' ' || s.bottom_left != ' ' {
            1
        } else {
            0
        },
        top: if s.top_left != ' ' || s.top_center != ' ' || s.top_right != ' ' {
            1
        } else {
            0
        },
        right: if s.top_right != ' ' || s.center_right != ' ' || s.bottom_right != ' ' {
            1
        } else {
            0
        },
        bottom: if s.bottom_left != ' ' || s.bottom_center != ' ' || s.bottom_right != ' ' {
            1
        } else {
            0
        },
    }
}

/// The tiles with `n` tiles from index `i` on set to `tile`.
pub open spec fn fill_range(t: Seq<Tile>, i: int, n: int, tile: Tile) -> Seq<Tile> {
    Seq::new(t.len(), |j: int| if i <= j < i + n { tile } else { t[j] })
}

/// The tiles after clearing the first `k` rows of the padded area, from the
/// pivot: each row's inner width of tiles from the tile at `(0, row)` on is
/// set to the clear tile. `None` where a row start is off the terminal or a
/// row runs past the last tile.
pub open spec fn clear_rows(v: TerminalView, tiles: Seq<Tile>, k: int) -> Option<Seq<Tile>>
    decreases k,
{
    if k <= 0 {
        Some(tiles)
    } else {
        match clear_rows(v, tiles, k - 1) {
            None => None,
            Some(t) => match v.transform(0, k - 1) {
                None => None,
                Some(p) => {
                    let i = v.index(p.0, p.1);
                    if i + v.inner_width() > t.len() {
                        None
                    } else {
                        Some(fill_range(t, i, v.inner_width(), v.clear_tile))
                    }
                },
            },
        }
    }
}

pub proof fn lemma_put_all_prefix(
    w: int,
    tiles: Seq<Tile>,
    ws: Seq<(int, int, char)>,
    k: int,
    fg: Option<Color>,
    bg: Option<Color>,
)
    requires
        put_all(w, tiles, ws, fg, bg) is Some,
        0 <= k <= ws.len(),
    ensures
        put_all(w, tiles, ws.take(k), fg, bg) is Some,
    decreases ws.len(),
{
    if k == ws.len() {
        assert(ws.take(k) =~= ws);
    } else {
        assert(ws.drop_last().take(k) =~= ws.take(k));
        lemma_put_all_prefix(w, tiles, ws.drop_last(), k, fg, bg);
    }
}

/// Writing every glyph of `ws` keeps the number of tiles, and succeeds where
/// every write is on the tiles.
pub proof fn lemma_put_all_in_bounds(
    w: int,
    tiles: Seq<Tile>,
    ws: Seq<(int, int, char)>,
    fg: Option<Color>,
    bg: Option<Color>,
)
    requires
        0 <= w,
        forall|j: int|
            0 <= j < ws.len() ==> 0 <= (#[trigger] ws[j]).0 && 0 <= ws[j].1 && ws[j].1 * w + ws[j].0
                < tiles.len(),
    ensures
        put_all(w, tiles, ws, fg, bg) matches Some(t) && t.len() == tiles.len(),
    decreases ws.len(),
{
    if ws.len() > 0 {
        let d = ws.drop_last();
        assert forall|j: int| 0 <= j < d.len() implies 0 <= (#[trigger] d[j]).0 && 0 <= d[j].1
            && d[j].1 * w + d[j].0 < tiles.len() by {
            assert(d[j] == ws[j]);
        }
        lemma_put_all_in_bounds(w, tiles, d, fg, bg);
        let l = ws[ws.len() - 1];
        assert(ws.last() == l);
        assert(0 <= l.0 && 0 <= l.1 && l.1 * w + l.0 < tiles.len());
        let t = put_all(w, tiles, d, fg, bg)->0;
        assert(t.len() == tiles.len());
        assert(0 <= l.1 * w) by (nonlinear_arith)
            requires
                0 <= l.1,
                0 <= w,
        ;
        assert(t.update(l.1 * w + l.0, t[l.1 * w + l.0].patched(Some(l.2), fg, bg)).len() == t.len());
        assert(put_all(w, tiles, ws, fg, bg) == Some(
            t.update(l.1 * w + l.0, t[l.1 * w + l.0].patched(Some(l.2), fg, bg)),
        ));
    }
}

impl Terminal {
    /// Replace the glyph, and the colors that are given, of the tile at
    /// `(x, y)` from the bottom left.
    fn put_glyph_at(&mut self, x: i64, y: i64, glyph: char, fg: Option<Color>, bg: Option<Color>)
        requires
            old(self).wf(),
            0 <= x,
            0 <= y,
            y * old(self)@.width + x < old(self)@.tiles.len(),
        ensures
            final(self).wf(),
            final(self)@ == old(self)@.with_tiles(
                old(self)@.tiles.update(
                    y * old(self)@.width + x,
                    old(self)@.tiles[y * old(self)@.width + x].patched(Some(glyph), fg, bg),
                ),
            ),
    {
        let w = self.width() as i64;
        proof {
            assert(0 <= y * w) by (nonlinear_arith)
                requires
                    0 <= y,
                    0 <= w,
            ;
            crate::terminal::lemma_size_bound(old(self)@.width as int, old(self)@.height as int);
        }
        let i = y * w + x;
        self.write_glyph(i as usize, glyph, fg, bg);
    }

    /// Draw the `k`-th glyph of a box, given that the ones before it are drawn.
    fn put_box_step(
        &mut self,
        x: i64,
        y: i64,
        glyph: char,
        fg: Option<Color>,
        bg: Option<Color>,
        Ghost(tiles): Ghost<Seq<Tile>>,
        Ghost(ws): Ghost<Seq<(int, int, char)>>,
        Ghost(k): Ghost<int>,
    )
        requires
            old(self).wf(),
            0 <= k < ws.len(),
            ws[k] == (x as int, y as int, glyph),
            put_all(old(self)@.width as int, tiles, ws, fg, bg) is Some,
            put_all(old(self)@.width as int, tiles, ws.take(k), fg, bg) == Some(old(self)@.tiles),
        ensures
            final(self).wf(),
            final(self)@ == old(self)@.with_tiles(final(self)@.tiles),
            put_all(old(self)@.width as int, tiles, ws.take(k + 1), fg, bg) == Some(
                final(self)@.tiles,
            ),
    {
        proof {
            lemma_put_all_prefix(old(self)@.width as int, tiles, ws, k + 1, fg, bg);
            assert(ws.take(k + 1).drop_last() =~= ws.take(k));
            assert(ws.take(k + 1).last() == ws[k]);
        }
        self.put_glyph_at(x, y, glyph, fg, bg);
    }

    /// Draw a box of `size` tiles with its bottom left corner at `xy` from the
    /// bottom left of the terminal, ignoring pivot and padding. The style's
    /// colors are written where it has them.
    pub fn put_box(&mut self, xy: [i32; 2], size: [u32; 2], style: BoxStyle)
        requires
            old(self).wf(),
            size[0] <= i32::MAX,
            size[1] <= i32::MAX,
            put_all(
                old(self)@.width as int,
                old(self)@.tiles,
                box_writes(xy[0] as int, xy[1] as int, size[0] as int, size[1] as int, style),
                write_color(style.fg_color, old(self)@.clear_tile.fg_color),
                write_color(style.bg_color, old(self)@.clear_tile.bg_color),
            ) is Some,
        ensures
            final(self).wf(),
            final(self)@ == old(self)@.with_tiles(
                put_all(
                    old(self)@.width as int,
                    old(self)@.tiles,
                    box_writes(xy[0] as int, xy[1] as int, size[0] as int, size[1] as int, style),
                    write_color(style.fg_color, old(self)@.clear_tile.fg_color),
                    write_color(style.bg_color, old(self)@.clear_tile.bg_color),
                )->0,
            ),
    {
        let clear = self.clear_tile();
        let fg = match style.fg_color {
            None => None,
            Some(ColorWrite::Clear) => Some(clear.fg_color),
            Some(ColorWrite::Color(c)) => Some(c),
        };
        let bg = match style.bg_color {
            None => None,
            Some(ColorWrite::Clear) => Some(clear.bg_color),
            Some(ColorWrite::Color(c)) => Some(c),
        };
        let x = xy[0] as i64;
        let y = xy[1] as i64;
        let w = size[0] as i64;
        let h = size[1] as i64;
        let ghost v = self@;
        let ghost ws = box_writes(x as int, y as int, w as int, h as int, style);
        let ghost t0 = self@.tiles;
        proof {
            assert(ws.take(0) =~= Seq::<(int, int, char)>::empty());
            assert(ws[0] == (x as int, y as int, style.bottom_left));
            assert(ws[1] == (x as int, y + h - 1, style.top_left));
            assert(ws[2] == (x + w - 1, y as int, style.bottom_right));
            assert(ws[3] == (x + w - 1, y + h - 1, style.top_right));
        }
        self.put_box_step(x, y, style.bottom_left, fg, bg, Ghost(t0), Ghost(ws), Ghost(0));
        self.put_box_step(x, y + h - 1, style.top_left, fg, bg, Ghost(t0), Ghost(ws), Ghost(1));
        self.put_box_step(x + w - 1, y, style.bottom_right, fg, bg, Ghost(t0), Ghost(ws), Ghost(2));
        self.put_box_step(
            x + w - 1,
            y + h - 1,
            style.top_right,
            fg,
            bg,
            Ghost(t0),
            Ghost(ws),
            Ghost(3),
        );
        let mut i: i64 = 1;
        while i < w - 1
            invariant
                self.wf(),
                self@ == v.with_tiles(self@.tiles),
                v.wf(),
                ws == box_writes(x as int, y as int, w as int, h as int, style),
                0 <= w <= i32::MAX,
                0 <= h <= i32::MAX,
                i32::MIN <= x <= i32::MAX,
                i32::MIN <= y <= i32::MAX,
                1 <= i,
                i <= if w >= 2 {
                    w - 1
                } else {
                    1
                },
                put_all(v.width as int, t0, ws, fg, bg) is Some,
                put_all(v.width as int, t0, ws.take(4 + 2 * (i - 1)), fg, bg) == Some(self@.tiles),
            decreases w - i,
        {
            proof {
                assert(ws[4 + 2 * (i - 1)] == (x + i, y as int, style.bottom_center));
                assert(ws[4 + 2 * (i - 1) + 1] == (x + i, y + h - 1, style.top_center));
            }
            self.put_box_step(
                x + i,
                y,
                style.bottom_center,
                fg,
                bg,
                Ghost(t0),
                Ghost(ws),
                Ghost(4 + 2 * (i - 1)),
            );
            self.put_box_step(
                x + i,
                y + h - 1,
                style.top_center,
                fg,
                bg,
                Ghost(t0),
                Ghost(ws),
                Ghost(4 + 2 * (i - 1) + 1),
            );
            i = i + 1;
        }
        let ghost top = 4 + 2 * inner_span(w as int);
        proof {
            assert(4 + 2 * (i - 1) == top);
        }
        let mut j: i64 = 1;
        while j < h - 1
            invariant
                self.wf(),
                self@ == v.with_tiles(self@.tiles),
                v.wf(),
                ws == box_writes(x as int, y as int, w as int, h as int, style),
                top == 4 + 2 * inner_span(w as int),
                0 <= w <= i32::MAX,
                0 <= h <= i32::MAX,
                i32::MIN <= x <= i32::MAX,
                i32::MIN <= y <= i32::MAX,
                1 <= j,
                j <= if h >= 2 {
                    h - 1
                } else {
                    1
                },
                put_all(v.width as int, t0, ws, fg, bg) is Some,
                put_all(v.width as int, t0, ws.take(top + 2 * (j - 1)), fg, bg) == Some(
                    self@.tiles,
                ),
            decreases h - j,
        {
            proof {
                assert(ws[top + 2 * (j - 1)] == (x as int, y + j, style.center_left));
                assert(ws[top + 2 * (j - 1) + 1] == (x + w - 1, y + j, style.center_right));
            }
            self.put_box_step(
                x,
                y + j,
                style.center_left,
                fg,
                bg,
                Ghost(t0),
                Ghost(ws),
                Ghost(top + 2 * (j - 1)),
            );
            self.put_box_step(
                x + w - 1,
                y + j,
                style.center_right,
                fg,
                bg,
                Ghost(t0),
                Ghost(ws),
                Ghost(top + 2 * (j - 1) + 1),
            );
            j = j + 1;
        }
        proof {
            assert(ws.take(top + 2 * (j - 1)) =~= ws);
        }
    }

    /// Draw a border around the whole terminal with a box style. Unless the
    /// style keeps the padding, the padding becomes one tile on each side
    /// that has a glyph other than a space.
    pub fn put_border(&mut self, box_style: BoxStyle)
        requires
            old(self).wf(),
            old(self)@.width >= 1,
            old(self)@.height >= 1,
        ensures
            final(self).wf(),
            final(self)@ == (TerminalView {
                tiles: put_all(
                    old(self)@.width as int,
                    old(self)@.tiles,
                    box_writes(0, 0, old(self)@.width as int, old(self)@.height as int, box_style),
                    write_color(box_style.fg_color, old(self)@.clear_tile.fg_color),
                    write_color(box_style.bg_color, old(self)@.clear_tile.bg_color),
                )->0,
                padding: if box_style.reset_padding {
                    border_padding(box_style)
                } else {
                    old(self)@.padding
                },
                ..old(self)@
            }),
    {
        let ghost v = self@;
        let padding = self.padding();
        proof {
            let ws = box_writes(0, 0, v.width as int, v.height as int, box_style);
            assert forall|j: int| 0 <= j < ws.len() implies 0 <= (#[trigger] ws[j]).0 && 0
                <= ws[j].1 && ws[j].1 * v.width + ws[j].0 < v.tiles.len() by {
                crate::terminal::lemma_index_in_bounds(
                    v.width as int,
                    v.height as int,
                    ws[j].0,
                    ws[j].1,
                );
            }
            lemma_put_all_in_bounds(
                v.width as int,
                v.tiles,
                ws,
                write_color(box_style.fg_color, v.clear_tile.fg_color),
                write_color(box_style.bg_color, v.clear_tile.bg_color),
            );
        }
        self.set_padding(Padding::zero());
        let size = self.size();
        self.put_box([0, 0], size, box_style);
        if box_style.reset_padding {
            let pad_left = box_style.top_left != ' ' || box_style.center_left != ' '
                || box_style.bottom_left != ' ';
            let pad_right = box_style.top_right != ' ' || box_style.center_right != ' '
                || box_style.bottom_right != ' ';
            let pad_top = box_style.top_left != ' ' || box_style.top_center != ' '
                || box_style.top_right != ' ';
            let pad_bottom = box_style.bottom_left != ' ' || box_style.bottom_center != ' '
                || box_style.bottom_right != ' ';
            self.set_padding(
                Padding {
                    left: if pad_left {
                        1
                    } else {
                        0
                    },
                    top: if pad_top {
                        1
                    } else {
                        0
                    },
                    right: if pad_right {
                        1
                    } else {
                        0
                    },
                    bottom: if pad_bottom {
                        1
                    } else {
                        0
                    },
                },
            );
        } else {
            self.set_padding(padding);
        }
    }

    /// Draw a border on the terminal during creation.
    pub fn with_border(self, box_style: BoxStyle) -> (r: Self)
        requires
            self.wf(),
            self@.width >= 1,
            self@.height >= 1,
        ensures
            r.wf(),
            r@ == (TerminalView {
                tiles: put_all(
                    self@.width as int,
                    self@.tiles,
                    box_writes(0, 0, self@.width as int, self@.height as int, box_style),
                    write_color(box_style.fg_color, self@.clear_tile.fg_color),
                    write_color(box_style.bg_color, self@.clear_tile.bg_color),
                )->0,
                padding: if box_style.reset_padding {
                    border_padding(box_style)
                } else {
                    self@.padding
                },
                ..self@
            }),
    {
        let mut t = self;
        t.put_border(box_style);
        t
    }

    /// Set the tiles of the padded area to the clear tile, row by row from the
    /// pivot.
    pub fn clear_inner(&mut self)
        requires
            old(self).wf(),
            clear_rows(old(self)@, old(self)@.tiles, old(self)@.inner_height()) is Some,
        ensures
            final(self).wf(),
            final(self)@ == old(self)@.with_tiles(
                clear_rows(old(self)@, old(self)@.tiles, old(self)@.inner_height())->0,
            ),
    {
        let ghost v = self@;
        let ih = self.inner_height();
        let iw = self.inner_width();
        let clear = self.clear_tile();
        let mut row: usize = 0;
        proof {
            lemma_clear_rows_prefix(v, v.tiles, ih as int, 0);
        }
        while row < ih
            invariant
                self.wf(),
                self@ == v.with_tiles(self@.tiles),
                v.wf(),
                v == old(self)@,
                ih == v.inner_height(),
                iw == v.inner_width(),
                clear == v.clear_tile,
                row <= ih,
                clear_rows(v, v.tiles, ih as int) is Some,
                clear_rows(v, v.tiles, row as int) == Some(self@.tiles),
            decreases ih - row,
        {
            proof {
                lemma_clear_rows_prefix(v, v.tiles, ih as int, row + 1);
            }
            let start = match self.try_transform_point_to_index([0, row as i32]) {
                Some(i) => i,
                None => 0,
            };
            let ghost before = self@.tiles;
            let mut k: usize = 0;
            while k < iw
                invariant
                    self.wf(),
                    self@ == v.with_tiles(self@.tiles),
                    v.wf(),
                    k <= iw,
                    start + iw <= before.len(),
                    self@.tiles.len() == before.len(),
                    forall|j: int|
                        0 <= j < before.len() ==> #[trigger] self@.tiles[j] == if start <= j < start
                            + k {
                            clear
                        } else {
                            before[j]
                        },
                decreases iw - k,
            {
                self.write_tile(start + k, clear);
                k = k + 1;
            }
            proof {
                assert(self@.tiles =~= fill_range(before, start as int, iw as int, clear));
            }
            row = row + 1;
        }
    }
}

proof fn lemma_clear_rows_prefix(v: TerminalView, tiles: Seq<Tile>, n: int, k: int)
    requires
        clear_rows(v, tiles, n) is Some,
        0 <= k <= n,
    ensures
        clear_rows(v, tiles, k) is Some,
    decreases n - k,
{
    if k < n {
        lemma_clear_rows_prefix(v, tiles, n, k + 1);
    }
}

} // verus!
