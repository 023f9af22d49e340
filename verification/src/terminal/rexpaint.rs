//! Building a terminal from the layers of a REXPaint image.
use vstd::prelude::*;
use vstd::utf8::is_scalar;

use crate::ascii::cp437_char;
use crate::color::{pack_rgba, rgba};
use crate::padding::Padding;
use crate::pivot::Pivot;
use crate::rex::reader::{XpCell, XpFile, XpLayer, XpLayerView};
use crate::terminal::Terminal;
use crate::tile::{default_tile, Tile};

verus! {

/// The glyph of an image cell: the code page 437 character at the low byte
/// of its character index, or none where the index is not a Unicode scalar value.
pub open spec fn xp_glyph(ch: u32) -> Option<char> {
    if is_scalar(ch) {
        Some(cp437_char((ch % 256) as u8))
    } else {
        None
    }
}

/// A tile after an image cell is written over it: its glyph and opaque
/// colors, or the tile unchanged where the cell has no glyph.
pub open spec fn xp_tile(prev: Tile, c: XpCell) -> Tile {
    match xp_glyph(c.ch) {
        None => prev,
        Some(g) => Tile {
            glyph: g,
            fg_color: rgba(c.fg.r, c.fg.g, c.fg.b, 255),
            bg_color: rgba(c.bg.r, c.bg.g, c.bg.b, 255),
        },
    }
}

/// The tile at `(x, y)` after a layer is written over `prev`: the layer's
/// cell in column `x`, row `y` counted from the top of the file, is written
/// at row `y` counted from the bottom of the terminal.
pub open spec fn layer_tile(prev: Tile, l: XpLayerView, x: int, y: int) -> Tile {
    if 0 <= x < l.width && 0 <= y < l.height {
        xp_tile(prev, l.cells[x * l.height + y])
    } else {
        prev
    }
}

/// The tile at `(x, y)` after writing the layers in turn over a default tile.
pub open spec fn stack_tile(ls: Seq<XpLayerView>, x: int, y: int) -> Tile
    decreases ls.len(),
{
    if ls.len() == 0 {
        default_tile()
    } else {
        layer_tile(stack_tile(ls.drop_last(), x, y), ls.last(), x, y)
    }
}

/// A layer no larger than `w` by `h` whose cells cover its area.
pub open spec fn layer_fits(l: XpLayer, w: int, h: int) -> bool {
    &&& l.width <= w
    &&& l.height <= h
    &&& l.cells@.len() >= l.width * l.height
}

impl Terminal {
    /// Create a terminal from a REXPaint image, as large as its first layer,
    /// with every layer written over the one before (transparent cells are not
    /// kept apart). `None` where the image has no layers.
    pub fn from_rexpaint(xp: &XpFile) -> (r: Option<Self>)
        requires
            xp.layers@.len() > 0 ==> {
                let w = xp.layers@[0].width as int;
                let h = xp.layers@[0].height as int;
                &&& w <= i32::MAX
                &&& h <= i32::MAX
                &&& w * h <= usize::MAX
                &&& forall|i: int|
                    0 <= i < xp.layers@.len() ==> layer_fits(#[trigger] xp.layers@[i], w, h)
            },
        ensures
            (r is None) == (xp.layers@.len() == 0),
            r matches Some(t) ==> {
                let w = xp.layers@[0].width as int;
                let h = xp.layers@[0].height as int;
                &&& t.wf()
                &&& t@.width == w
                &&& t@.height == h
                &&& t@.clear_tile == default_tile()
                &&& t@.pivot == Pivot::BottomLeft
                &&& t@.padding == Padding::zero_spec()
                &&& forall|x: int, y: int|
                    0 <= x < w && 0 <= y < h ==> #[trigger] t@.tiles[y * w + x] == stack_tile(
                        xp.layer_views(),
                        x,
                        y,
                    )
            },
    {
        let nl = xp.layers.len();
        if nl == 0 {
            return None;
        }
        let w = xp.layers[0].width;
        let h = xp.layers[0].height;
        let mut t = Terminal::new([w as u32, h as u32]);
        let ghost views = xp.layer_views();
        proof {
            assert forall|x: int, y: int| 0 <= x < w && 0 <= y < h implies #[trigger] t@.tiles[y
                * w + x] == stack_tile(views.take(0), x, y) by {
                crate::terminal::lemma_index_in_bounds(w as int, h as int, x, y);
            }
        }
        let mut k: usize = 0;
        while k < nl
            invariant
                nl == xp.layers@.len(),
                views == xp.layer_views(),
                w == xp.layers@[0].width,
                h == xp.layers@[0].height,
                w <= i32::MAX,
                h <= i32::MAX,
                forall|i: int| 0 <= i < nl ==> layer_fits(#[trigger] xp.layers@[i], w as int, h as int),
                k <= nl,
                t.wf(),
                t@.width == w,
                t@.height == h,
                t@.clear_tile == default_tile(),
                t@.pivot == Pivot::BottomLeft,
                t@.padding == Padding::zero_spec(),
                forall|x: int, y: int|
                    0 <= x < w && 0 <= y < h ==> #[trigger] t@.tiles[y * w + x] == stack_tile(
                        views.take(k as int),
                        x,
                        y,
                    ),
            decreases nl - k,
        {
            let layer = &xp.layers[k];
            proof {
                assert(layer_fits(xp.layers@[k as int], w as int, h as int));
                assert(views.take(k + 1).drop_last() =~= views.take(k as int));
                assert(views.take(k + 1).last() == layer.layer_view());
            }
            t.write_layer(layer, w, h, Ghost(views.take(k as int)));
            k = k + 1;
        }
        proof {
            assert(views.take(nl as int) =~= views);
        }
        Some(t)
    }

    /// Write one layer of an image over the terminal, whose tiles hold what
    /// the layers `below` left.
    fn write_layer(&mut self, layer: &XpLayer, w: usize, h: usize, Ghost(below): Ghost<Seq<XpLayerView>>)
        requires
            old(self).wf(),
            old(self)@.width == w,
            old(self)@.height == h,
            layer_fits(*layer, w as int, h as int),
            forall|x: int, y: int|
                0 <= x < w && 0 <= y < h ==> #[trigger] old(self)@.tiles[y * w + x] == stack_tile(
                    below,
                    x,
                    y,
                ),
        ensures
            final(self).wf(),
            final(self)@ == old(self)@.with_tiles(final(self)@.tiles),
            forall|x: int, y: int|
                0 <= x < w && 0 <= y < h ==> #[trigger] final(self)@.tiles[y * w + x] == layer_tile(
                    stack_tile(below, x, y),
                    layer.layer_view(),
                    x,
                    y,
                ),
    {
        let lw = layer.width;
        let lh = layer.height;
        let ghost v = self@;
        let ghost lv = layer.layer_view();
        let mut y: usize = 0;
        while y < lh
            invariant
                self.wf(),
                self@ == v.with_tiles(self@.tiles),
                v == old(self)@,
                v.width == w,
                v.height == h,
                lw == layer.width,
                lh == layer.height,
                lv == layer.layer_view(),
                layer_fits(*layer, w as int, h as int),
                y <= lh,
                forall|x2: int, y2: int|
                    0 <= x2 < w && 0 <= y2 < h ==> #[trigger] self@.tiles[y2 * w + x2] == if lh - y
                        <= y2 {
                        layer_tile(stack_tile(below, x2, y2), lv, x2, y2)
                    } else {
                        stack_tile(below, x2, y2)
                    },
            decreases lh - y,
        {
            let row = lh - 1 - y;
            let mut x: usize = 0;
            while x < lw
                invariant
                    self.wf(),
                    self@ == v.with_tiles(self@.tiles),
                    v.width == w,
                    v.height == h,
                    lw == layer.width,
                    lh == layer.height,
                    lv == layer.layer_view(),
                    layer_fits(*layer, w as int, h as int),
                    y < lh,
                    row == lh - 1 - y,
                    x <= lw,
                    forall|x2: int, y2: int|
                        0 <= x2 < w && 0 <= y2 < h ==> #[trigger] self@.tiles[y2 * w + x2] == if lh
                            - y <= y2 || (y2 == row && x2 < x) {
                            layer_tile(stack_tile(below, x2, y2), lv, x2, y2)
                        } else {
                            stack_tile(below, x2, y2)
                        },
                decreases lw - x,
            {
                proof {
                    assert(x * lh + (lh - 1 - y) < lw * lh) by (nonlinear_arith)
                        requires
                            x < lw,
                            y < lh,
                    ;
                    assert(0 <= x * lh) by (nonlinear_arith);
                }
                let cell = match layer.get(x, y) {
                    Some(c) => *c,
                    None => layer.cells[0],
                };
                let ghost before = self@.tiles;
                let ghost idx = row * w + x;
                proof {
                    crate::terminal::lemma_index_in_bounds(w as int, h as int, x as int, row as int);
                }
                self.write_cell(row * w + x, cell);
                proof {
                    assert forall|x2: int, y2: int| 0 <= x2 < w && 0 <= y2 < h implies #[trigger] self@.tiles[y2
                        * w + x2] == if lh - y <= y2 || (y2 == row && x2 < x + 1) {
                        layer_tile(stack_tile(below, x2, y2), lv, x2, y2)
                    } else {
                        stack_tile(below, x2, y2)
                    } by {
                        crate::terminal::lemma_index_in_bounds(w as int, h as int, x2, y2);
                        if y2 * w + x2 == idx {
                            crate::terminal::text::lemma_index_unique(
                                w as int,
                                x2,
                                y2,
                                x as int,
                                row as int,
                            );
                        } else {
                            assert(self@.tiles[y2 * w + x2] == before[y2 * w + x2]);
                        }
                    }
                }
                x = x + 1;
            }
            y = y + 1;
        }
    }

    /// Write an image cell over the tile at index `i`, where it has a glyph.
    fn write_cell(&mut self, i: usize, cell: XpCell)
        requires
            old(self).wf(),
            i < old(self)@.tiles.len(),
        ensures
            final(self).wf(),
            final(self)@ == old(self)@.with_tiles(
                old(self)@.tiles.update(i as int, xp_tile(old(self)@.tiles[i as int], cell)),
            ),
    {
        let glyph = match crate::strings::char_from_u32(cell.ch) {
            Some(c) => c,
            None => {
                proof {
                    assert(old(self)@.tiles.update(i as int, old(self)@.tiles[i as int])
                        =~= old(self)@.tiles);
                }
                return;
            },
        };
        let low = (glyph as u32 % 256) as u8;
        let g = match crate::ascii::try_index_to_char(low) {
            Some(c) => c,
            None => ' ',
        };
        let fg = pack_rgba(cell.fg.r, cell.fg.g, cell.fg.b, 255);
        let bg = pack_rgba(cell.bg.r, cell.bg.g, cell.bg.b, 255);
        self.write_tile(i, Tile { glyph: g, fg_color: fg, bg_color: bg });
    }
}

} // verus!
