//! A grid of tiles for rendering colorful ascii.
use vstd::prelude::*;

use crate::color::Color;
use crate::padding::Padding;
use crate::pivot::{Pivot, PivotedPoint};
use crate::tile::{default_tile, Tile};

pub mod draw;
pub mod iter;
pub mod put;
pub mod rexpaint;
pub mod text;

verus! {

/// A padding whose sides each fit in an `i32`, as terminal positions do.
pub open spec fn padding_ok(p: Padding) -> bool {
    &&& p.left <= i32::MAX
    &&& p.right <= i32::MAX
    &&& p.top <= i32::MAX
    &&& p.bottom <= i32::MAX
}

/// `a - b`, or 0 where `b` is larger.
pub open spec fn saturating_sub(a: int, b: int) -> int {
    if b <= a {
        a - b
    } else {
        0
    }
}

/// A sequence of `n` copies of `t`.
pub open spec fn repeat_tile(t: Tile, n: nat) -> Seq<Tile> {
    Seq::new(n, |i: int| t)
}

impl Tile {
    /// The tile with each of the given parts replaced, and the others kept.
    pub open spec fn patched(self, glyph: Option<char>, fg: Option<Color>, bg: Option<Color>) -> Tile {
        Tile {
            glyph: match glyph {
                Some(g) => g,
                None => self.glyph,
            },
            fg_color: match fg {
                Some(c) => c,
                None => self.fg_color,
            },
            bg_color: match bg {
                Some(c) => c,
                None => self.bg_color,
            },
        }
    }
}

/// What a terminal holds: its size, its tiles row by row from the bottom row
/// up, the tile that clearing writes, its pivot and its padding.
pub struct TerminalView {
    pub width: nat,
    pub height: nat,
    pub tiles: Seq<Tile>,
    pub clear_tile: Tile,
    pub pivot: Pivot,
    pub padding: Padding,
}

impl TerminalView {
    /// One tile for each position, sizes that fit in an `i32`.
    pub open spec fn wf(self) -> bool {
        &&& self.tiles.len() == self.width * self.height
        &&& self.tiles.len() <= usize::MAX
        &&& self.width <= i32::MAX
        &&& self.height <= i32::MAX
        &&& padding_ok(self.padding)
    }

    /// The width of the area inside the padding.
    pub open spec fn inner_width(self) -> int {
        saturating_sub(self.width as int, self.padding.left + self.padding.right)
    }

    /// The height of the area inside the padding.
    pub open spec fn inner_height(self) -> int {
        saturating_sub(self.height as int, self.padding.top + self.padding.bottom)
    }

    /// The index in [Self::tiles] of the tile at `(x, y)`, from the bottom left.
    pub open spec fn index(self, x: int, y: int) -> int {
        y * self.width + x
    }

    /// The tile position, from the bottom left of the whole terminal, of the
    /// point `(x, y)` measured from `pivot` in the padded area; `None` where it
    /// falls outside the padded area.
    pub open spec fn transform_with(self, pivot: Pivot, x: int, y: int) -> Option<(int, int)> {
        let p = pivot.place(x, y, self.inner_width(), self.inner_height());
        let q = (p.0 + self.padding.left, p.1 + self.padding.bottom);
        if p.0 < 0 || p.1 < 0 || p.0 >= self.inner_width() || p.1 >= self.inner_height() || q.0
            >= self.width || q.1 >= self.height {
            None
        } else {
            Some(q)
        }
    }

    /// [Self::transform_with] the terminal's own pivot.
    pub open spec fn transform(self, x: int, y: int) -> Option<(int, int)> {
        self.transform_with(self.pivot, x, y)
    }

    /// The pivot that a point with an optional pivot of its own is measured from.
    pub open spec fn pivot_for(self, p: Option<Pivot>) -> Pivot {
        match p {
            Some(pivot) => pivot,
            None => self.pivot,
        }
    }

    /// The index of the tile that a pivoted point names, if it is in the padded area.
    pub open spec fn index_for(self, pp: PivotedPoint) -> Option<int> {
        match self.transform_with(self.pivot_for(pp.pivot), pp.point[0] as int, pp.point[1] as int) {
            Some(q) => Some(self.index(q.0, q.1)),
            None => None,
        }
    }

    /// The same terminal with other tiles.
    pub open spec fn with_tiles(self, tiles: Seq<Tile>) -> TerminalView {
        TerminalView { tiles, ..self }
    }
}

/// The tile position a point names, as plain integers.
pub open spec fn point_view(p: Option<[i32; 2]>) -> Option<(int, int)> {
    match p {
        Some(q) => Some((q[0] as int, q[1] as int)),
        None => None,
    }
}

/// A grid of tiles for rendering colorful ascii.
#[derive(Debug, Clone)]
pub struct Terminal {
    width: u32,
    height: u32,
    tiles: Vec<Tile>,
    clear_tile: Tile,
    pivot: Pivot,
    padding: Padding,
}

impl View for Terminal {
    type V = TerminalView;

    closed spec fn view(&self) -> TerminalView {
        TerminalView {
            width: self.width as nat,
            height: self.height as nat,
            tiles: self.tiles@,
            clear_tile: self.clear_tile,
            pivot: self.pivot,
            padding: self.padding,
        }
    }
}

pub(crate) proof fn lemma_index_in_bounds(w: int, h: int, x: int, y: int)
    requires
        0 <= x < w,
        0 <= y < h,
    ensures
        0 <= y * w + x < w * h,
{
    assert(y * w + x < w * h) by (nonlinear_arith)
        requires
            0 <= x < w,
            0 <= y < h,
    ;
    assert(0 <= y * w) by (nonlinear_arith)
        requires
            0 <= y,
            0 <= w,
    ;
}

proof fn lemma_size_bound(w: int, h: int)
    requires
        0 <= w <= i32::MAX,
        0 <= h <= i32::MAX,
    ensures
        w * h <= i32::MAX * i32::MAX,
{
    assert(w * h <= i32::MAX * i32::MAX) by (nonlinear_arith)
        requires
            0 <= w <= i32::MAX,
            0 <= h <= i32::MAX,
    ;
}

/// `n` copies of `t`.
fn tile_vec(t: Tile, n: usize) -> (v: Vec<Tile>)
    ensures
        v@ == repeat_tile(t, n as nat),
{
    let mut v: Vec<Tile> = Vec::new();
    while v.len() < n
        invariant
            v.len() <= n,
            v@ == repeat_tile(t, v.len() as nat),
        decreases n - v.len(),
    {
        v.push(t);
    }
    v
}

impl Terminal {
    /// The invariant every terminal keeps.
    pub open spec fn wf(&self) -> bool {
        self@.wf()
    }

    /// A terminal of the given size filled with default tiles, measured from
    /// its bottom left, without padding.
    pub fn new(size: [u32; 2]) -> (r: Self)
        requires
            size[0] <= i32::MAX,
            size[1] <= i32::MAX,
            size[0] * size[1] <= usize::MAX,
        ensures
            r.wf(),
            r@.width == size[0],
            r@.height == size[1],
            r@.tiles == repeat_tile(default_tile(), (size[0] * size[1]) as nat),
            r@.clear_tile == default_tile(),
            r@.pivot == Pivot::BottomLeft,
            r@.padding == Padding::zero_spec(),
    {
        let w = size[0];
        let h = size[1];
        let n = (w as usize) * (h as usize);
        let tiles = tile_vec(Tile::default(), n);
        Terminal {
            width: w,
            height: h,
            tiles,
            clear_tile: Tile::default(),
            pivot: Pivot::BottomLeft,
            padding: Padding::zero(),
        }
    }

    pub fn width(&self) -> (r: usize)
        ensures
            r == self@.width,
    {
        self.width as usize
    }

    pub fn height(&self) -> (r: usize)
        ensures
            r == self@.height,
    {
        self.height as usize
    }

    /// The width and height of the terminal.
    pub fn size(&self) -> (r: [u32; 2])
        ensures
            r[0] == self@.width,
            r[1] == self@.height,
    {
        [self.width, self.height]
    }

    /// The width of the area inside the padding.
    pub fn inner_width(&self) -> (r: usize)
        requires
            self.wf(),
        ensures
            r == self@.inner_width(),
    {
        let w = self.width as usize;
        let p = self.padding.left + self.padding.right;
        if p <= w {
            w - p
        } else {
            0
        }
    }

    /// The height of the area inside the padding.
    pub fn inner_height(&self) -> (r: usize)
        requires
            self.wf(),
        ensures
            r == self@.inner_height(),
    {
        let h = self.height as usize;
        let p = self.padding.top + self.padding.bottom;
        if p <= h {
            h - p
        } else {
            0
        }
    }

    /// The size of the area inside the padding.
    pub fn inner_size(&self) -> (r: [u32; 2])
        requires
            self.wf(),
        ensures
            r[0] == self@.inner_width(),
            r[1] == self@.inner_height(),
    {
        [self.inner_width() as u32, self.inner_height() as u32]
    }

    pub fn tile_count(&self) -> (r: usize)
        ensures
            r == self@.tiles.len(),
    {
        self.tiles.len()
    }

    /// The terminal tiles as a slice, row by row from the bottom.
    pub fn tiles(&self) -> (r: &[Tile])
        ensures
            r@ == self@.tiles,
    {
        self.tiles.as_slice()
    }

    /// The terminal tiles as a slice to modify, row by row from the bottom.
    pub fn tiles_mut(&mut self) -> (r: &mut [Tile])
        requires
            old(self).wf(),
        ensures
            r@ == old(self)@.tiles,
            final(self)@ == old(self)@.with_tiles(final(r)@),
    {
        self.tiles.as_mut_slice()
    }

    /// The tile that clearing the terminal writes.
    pub fn clear_tile(&self) -> (r: Tile)
        ensures
            r == self@.clear_tile,
    {
        self.clear_tile
    }

    pub fn padding(&self) -> (r: Padding)
        ensures
            r == self@.padding,
    {
        self.padding
    }

    pub fn set_padding(&mut self, padding: Padding)
        requires
            old(self).wf(),
            padding_ok(padding),
        ensures
            final(self).wf(),
            final(self)@ == (TerminalView { padding, ..old(self)@ }),
    {
        self.padding = padding;
    }

    pub fn set_pivot(&mut self, pivot: Pivot)
        requires
            old(self).wf(),
        ensures
            final(self).wf(),
            final(self)@ == (TerminalView { pivot, ..old(self)@ }),
    {
        self.pivot = pivot;
    }

    /// Set the padding for the terminal.
    pub fn with_padding(self, padding: Padding) -> (r: Self)
        requires
            self.wf(),
            padding_ok(padding),
        ensures
            r.wf(),
            r@ == (TerminalView { padding, ..self@ }),
    {
        let mut t = self;
        t.set_padding(padding);
        t
    }

    /// Set the pivot that positions are measured from.
    pub fn with_pivot(self, pivot: Pivot) -> (r: Self)
        requires
            self.wf(),
        ensures
            r.wf(),
            r@ == (TerminalView { pivot, ..self@ }),
    {
        let mut t = self;
        t.set_pivot(pivot);
        t
    }

    /// Transform a point measured from `pivot` in the padded area into a tile
    /// position from the bottom left of the terminal, if it is in the padded area.
    fn transform_with(&self, pivot: Pivot, xy: [i32; 2]) -> (r: Option<[i32; 2]>)
        requires
            self.wf(),
        ensures
            point_view(r) == self@.transform_with(pivot, xy[0] as int, xy[1] as int),
    {
        let iw = self.inner_width();
        let ih = self.inner_height();
        let (px, py) = pivot.transform_point(xy, iw as u32, ih as u32);
        if px < 0 || py < 0 || px >= iw as i64 || py >= ih as i64 {
            return None;
        }
        let qx = px + self.padding.left as i64;
        let qy = py + self.padding.bottom as i64;
        if qx >= self.width as i64 || qy >= self.height as i64 {
            return None;
        }
        Some([qx as i32, qy as i32])
    }

    /// Transform a point from the current pivot origin within the padded area
    /// of the terminal to a tile position from the bottom left of the terminal,
    /// or `None` if it is outside the padded area.
    pub fn try_transform_point(&self, xy: [i32; 2]) -> (r: Option<[i32; 2]>)
        requires
            self.wf(),
        ensures
            point_view(r) == self@.transform(xy[0] as int, xy[1] as int),
    {
        self.transform_with(self.pivot, xy)
    }

    /// The index into the terminal tiles of the tile that a pivoted point names.
    fn pivoted_index(&self, pp: PivotedPoint) -> (r: Option<usize>)
        requires
            self.wf(),
        ensures
            match r {
                Some(i) => self@.index_for(pp) == Some(i as int) && i < self@.tiles.len(),
                None => self@.index_for(pp) is None,
            },
    {
        let pivot = match pp.pivot {
            Some(p) => p,
            None => self.pivot,
        };
        match self.transform_with(pivot, pp.point) {
            Some(q) => {
                proof {
                    assert(0 <= q[0] < self@.width && 0 <= q[1] < self@.height);
                    lemma_index_in_bounds(
                        self@.width as int,
                        self@.height as int,
                        q[0] as int,
                        q[1] as int,
                    );
                }
                let y = q[1] as usize;
                let w = self.width as usize;
                proof {
                    assert(self@.tiles.len() == self.tiles.len());
                    assert(y * w + q[0] < self.tiles.len());
                    assert(y * w <= y * w + q[0]);
                }
                Some(y * w + q[0] as usize)
            },
            None => None,
        }
    }

    /// Transform a point from the current pivot origin within the padded area
    /// to the index of its tile, or `None` if it is outside the padded area.
    pub fn try_transform_point_to_index(&self, xy: [i32; 2]) -> (r: Option<usize>)
        requires
            self.wf(),
        ensures
            r == match self@.transform(xy[0] as int, xy[1] as int) {
                Some(q) => Some(self@.index(q.0, q.1) as usize),
                None => None::<usize>,
            },
            r matches Some(i) ==> i < self@.tiles.len(),
    {
        self.pivoted_index(PivotedPoint { point: xy, pivot: None })
    }

    /// Transform a local 2d tile position (bottom left origin) into its index
    /// into the terminal tiles. This doesn't account for padding or pivot.
    pub fn tile_to_index(&self, xy: [i32; 2]) -> (r: usize)
        requires
            xy[0] >= 0,
            xy[1] >= 0,
            xy[1] * self@.width + xy[0] <= usize::MAX,
        ensures
            r == self@.index(xy[0] as int, xy[1] as int),
    {
        proof {
            assert(0 <= xy[1] * self@.width) by (nonlinear_arith)
                requires
                    xy[1] >= 0,
            ;
        }
        xy[1] as usize * self.width as usize + xy[0] as usize
    }

    /// Convert an index into the terminal tiles into its 2d tile position,
    /// ignoring padding.
    pub fn index_to_tile(&self, i: usize) -> (r: [i32; 2])
        requires
            self.wf(),
            i < self@.tiles.len(),
        ensures
            r[0] == i as int % self@.width as int,
            r[1] == i as int / self@.width as int,
    {
        let w = self.width as usize;
        proof {
            let h = self@.height as int;
            assert(w > 0) by (nonlinear_arith)
                requires
                    i < w * h,
                    h >= 0,
            ;
            assert(i % w < w && i / w < h) by (nonlinear_arith)
                requires
                    w > 0,
                    0 <= i < w * h,
            ;
        }
        let x = i % w;
        let y = i / w;
        [x as i32, y as i32]
    }

    /// The tile at a grid position measured from the pivot in the padded
    /// area. The position must be in the padded area.
    pub fn tile(&self, xy: [i32; 2]) -> (r: &Tile)
        requires
            self.wf(),
            self@.transform(xy[0] as int, xy[1] as int) is Some,
        ensures
            self@.index_for(PivotedPoint { point: xy, pivot: None }) matches Some(i) && *r
                == self@.tiles[i],
    {
        let i = match self.pivoted_index(PivotedPoint { point: xy, pivot: None }) {
            Some(i) => i,
            None => 0,
        };
        &self.tiles[i]
    }

    /// The tile at a grid position measured from the pivot in the padded
    /// area, to modify. The position must be in the padded area.
    pub fn tile_mut(&mut self, xy: [i32; 2]) -> (r: &mut Tile)
        requires
            old(self).wf(),
            old(self)@.transform(xy[0] as int, xy[1] as int) is Some,
        ensures
            old(self)@.index_for(PivotedPoint { point: xy, pivot: None }) matches Some(i) && {
                &&& *r == old(self)@.tiles[i]
                &&& final(self)@ == old(self)@.with_tiles(old(self)@.tiles.update(i, *final(r)))
            },
    {
        let i = match self.pivoted_index(PivotedPoint { point: xy, pivot: None }) {
            Some(i) => i,
            None => 0,
        };
        &mut self.tiles[i]
    }

    /// The tile at a grid position measured from the pivot in the padded
    /// area, to modify, or `None` if the position is outside the padded area.
    pub fn try_tile_mut(&mut self, xy: [i32; 2]) -> (r: Option<&mut Tile>)
        requires
            old(self).wf(),
        ensures
            match old(self)@.index_for(PivotedPoint { point: xy, pivot: None }) {
                Some(i) => r matches Some(t) && *t == old(self)@.tiles[i] && final(self)@ == old(
                    self,
                )@.with_tiles(old(self)@.tiles.update(i, *final(t))),
                None => r is None && final(self)@ == old(self)@,
            },
    {
        match self.pivoted_index(PivotedPoint { point: xy, pivot: None }) {
            Some(i) => Some(&mut self.tiles[i]),
            None => None,
        }
    }

    /// Insert a character into the terminal. The position must be on the
    /// terminal.
    ///
    /// This returns a mutable reference to the terminal tile which can be used
    /// to further modify it.
    pub fn put_char(&mut self, xy: PivotedPoint, ch: char) -> (r: &mut Tile)
        requires
            old(self).wf(),
            old(self)@.index_for(xy) is Some,
        ensures
            old(self)@.index_for(xy) matches Some(i) && {
                &&& *r == (Tile { glyph: ch, ..old(self)@.tiles[i] })
                &&& final(self)@ == old(self)@.with_tiles(old(self)@.tiles.update(i, *final(r)))
            },
    {
        let i = match self.pivoted_index(xy) {
            Some(i) => i,
            None => 0,
        };
        let t = &mut self.tiles[i];
        t.glyph = ch;
        t
    }

    /// Replace the parts of the tile at `xy` (from the bottom left, ignoring
    /// pivot and padding) that are given, keeping the others.
    pub fn maybe_put(&mut self, xy: [i32; 2], glyph: Option<char>, fg: Option<Color>, bg: Option<Color>)
        requires
            old(self).wf(),
            xy[0] >= 0,
            xy[1] >= 0,
            old(self)@.index(xy[0] as int, xy[1] as int) < old(self)@.tiles.len(),
        ensures
            final(self)@ == old(self)@.with_tiles(
                old(self)@.tiles.update(
                    old(self)@.index(xy[0] as int, xy[1] as int),
                    old(self)@.tiles[old(self)@.index(xy[0] as int, xy[1] as int)].patched(glyph, fg, bg),
                ),
            ),
    {
        proof {
            assert(self@.tiles.len() == self.tiles.len());
        }
        let i = self.tile_to_index(xy);
        let t = self.tiles[i].patch(glyph, fg, bg);
        self.tiles.set(i, t);
    }

    /// Replace the given parts of every tile, keeping the others.
    pub fn maybe_fill(&mut self, glyph: Option<char>, fg: Option<Color>, bg: Option<Color>)
        requires
            old(self).wf(),
        ensures
            final(self)@ == old(self)@.with_tiles(
                Seq::new(old(self)@.tiles.len(), |i: int| old(self)@.tiles[i].patched(glyph, fg, bg)),
            ),
    {
        let n = self.tiles.len();
        let mut i: usize = 0;
        while i < n
            invariant
                n == old(self)@.tiles.len(),
                i <= n,
                self@ == old(self)@.with_tiles(self@.tiles),
                self@.tiles.len() == n,
                forall|j: int| 0 <= j < i ==> self@.tiles[j] == old(self)@.tiles[j].patched(glyph, fg, bg),
                forall|j: int| i <= j < n ==> self@.tiles[j] == old(self)@.tiles[j],
            decreases n - i,
        {
            let t = self.tiles[i].patch(glyph, fg, bg);
            self.tiles.set(i, t);
            i = i + 1;
        }
        proof {
            assert(self@.tiles =~= Seq::new(n as nat, |i: int| old(self)@.tiles[i].patched(glyph, fg, bg)));
        }
    }

    /// Set every tile to `tile`.
    pub fn fill(&mut self, tile: Tile)
        requires
            old(self).wf(),
        ensures
            final(self)@ == old(self)@.with_tiles(repeat_tile(tile, old(self)@.tiles.len())),
    {
        let n = self.tiles.len();
        let mut i: usize = 0;
        while i < n
            invariant
                n == old(self)@.tiles.len(),
                i <= n,
                self@ == old(self)@.with_tiles(self@.tiles),
                self@.tiles.len() == n,
                forall|j: int| 0 <= j < i ==> self@.tiles[j] == tile,
            decreases n - i,
        {
            self.tiles.set(i, tile);
            i = i + 1;
        }
        proof {
            assert(self@.tiles =~= repeat_tile(tile, n as nat));
        }
    }

    /// Clear the terminal, setting all tiles to the terminal's clear tile.
    pub fn clear(&mut self)
        requires
            old(self).wf(),
        ensures
            final(self)@ == old(self)@.with_tiles(
                repeat_tile(old(self)@.clear_tile, old(self)@.tiles.len()),
            ),
    {
        let t = self.clear_tile;
        self.fill(t);
    }

    /// Set the foreground color of the tile at a position on the terminal.
    pub fn put_fg_color(&mut self, xy: PivotedPoint, color: Color)
        requires
            old(self).wf(),
            old(self)@.index_for(xy) is Some,
        ensures
            old(self)@.index_for(xy) matches Some(i) && final(self)@ == old(self)@.with_tiles(
                old(self)@.tiles.update(i, Tile { fg_color: color, ..old(self)@.tiles[i] }),
            ),
    {
        let i = match self.pivoted_index(xy) {
            Some(i) => i,
            None => 0,
        };
        let t = self.tiles[i].with_fg(color);
        self.tiles.set(i, t);
    }

    /// Set the background color of the tile at a position on the terminal.
    pub fn put_bg_color(&mut self, xy: PivotedPoint, color: Color)
        requires
            old(self).wf(),
            old(self)@.index_for(xy) is Some,
        ensures
            old(self)@.index_for(xy) matches Some(i) && final(self)@ == old(self)@.with_tiles(
                old(self)@.tiles.update(i, Tile { bg_color: color, ..old(self)@.tiles[i] }),
            ),
    {
        let i = match self.pivoted_index(xy) {
            Some(i) => i,
            None => 0,
        };
        let t = self.tiles[i].with_bg(color);
        self.tiles.set(i, t);
    }

    /// Insert a tile into the terminal at a position on the terminal.
    pub fn put_tile(&mut self, xy: PivotedPoint, tile: Tile)
        requires
            old(self).wf(),
            old(self)@.index_for(xy) is Some,
        ensures
            old(self)@.index_for(xy) matches Some(i) && final(self)@ == old(self)@.with_tiles(
                old(self)@.tiles.update(i, tile),
            ),
    {
        let i = match self.pivoted_index(xy) {
            Some(i) => i,
            None => 0,
        };
        self.tiles.set(i, tile);
    }

    /// Specify the terminal's clear tile, the tile used when clearing the
    /// terminal, and fill the terminal with it.
    pub fn with_clear_tile(self, clear_tile: Tile) -> (r: Self)
        requires
            self.wf(),
        ensures
            r.wf(),
            r@ == (TerminalView { clear_tile, tiles: repeat_tile(clear_tile, self@.tiles.len()), ..self@ }),
    {
        let mut t = self;
        t.clear_tile = clear_tile;
        t.fill(clear_tile);
        t
    }

    /// Set the glyph of the clear tile, and of every tile.
    pub fn with_clear_char(self, glyph: char) -> (r: Self)
        requires
            self.wf(),
        ensures
            r.wf(),
            r@ == (TerminalView {
                clear_tile: Tile { glyph, ..self@.clear_tile },
                tiles: Seq::new(self@.tiles.len(), |i: int| self@.tiles[i].patched(Some(glyph), None, None)),
                ..self@
            }),
    {
        let mut t = self;
        t.clear_tile.glyph = glyph;
        t.maybe_fill(Some(glyph), None, None);
        t
    }

    /// Set the foreground clear color, and the foreground color of every tile.
    pub fn with_fg_clear_color(self, col: Color) -> (r: Self)
        requires
            self.wf(),
        ensures
            r.wf(),
            r@ == (TerminalView {
                clear_tile: Tile { fg_color: col, ..self@.clear_tile },
                tiles: Seq::new(self@.tiles.len(), |i: int| self@.tiles[i].patched(None, Some(col), None)),
                ..self@
            }),
    {
        let mut t = self;
        t.clear_tile.fg_color = col;
        t.maybe_fill(None, Some(col), None);
        t
    }

    /// Set the background clear color, and the background color of every tile.
    pub fn with_bg_clear_color(self, col: Color) -> (r: Self)
        requires
            self.wf(),
        ensures
            r.wf(),
            r@ == (TerminalView {
                clear_tile: Tile { bg_color: col, ..self@.clear_tile },
                tiles: Seq::new(self@.tiles.len(), |i: int| self@.tiles[i].patched(None, None, Some(col))),
                ..self@
            }),
    {
        let mut t = self;
        t.clear_tile.bg_color = col;
        t.maybe_fill(None, None, Some(col));
        t
    }

    /// Resize the terminal, to at least two tiles each way, refilling it with
    /// the clear tile. Nothing changes if the size is the same.
    pub fn resize(&mut self, new_size: [u32; 2])
        requires
            old(self).wf(),
            new_size[0] <= i32::MAX,
            new_size[1] <= i32::MAX,
            at_least_two(new_size[0] as int) * at_least_two(new_size[1] as int) <= usize::MAX,
        ensures
            final(self).wf(),
            (new_size[0] == old(self)@.width && new_size[1] == old(self)@.height) ==> final(self)@
                == old(self)@,
            !(new_size[0] == old(self)@.width && new_size[1] == old(self)@.height) ==> final(self)@
                == (TerminalView {
                width: at_least_two(new_size[0] as int) as nat,
                height: at_least_two(new_size[1] as int) as nat,
                tiles: repeat_tile(
                    old(self)@.clear_tile,
                    (at_least_two(new_size[0] as int) * at_least_two(new_size[1] as int)) as nat,
                ),
                ..old(self)@
            }),
    {
        if new_size[0] == self.width && new_size[1] == self.height {
            return;
        }
        let w = if new_size[0] < 2 {
            2
        } else {
            new_size[0]
        };
        let h = if new_size[1] < 2 {
            2
        } else {
            new_size[1]
        };
        let n = (w as usize) * (h as usize);
        self.tiles = tile_vec(self.clear_tile, n);
        self.width = w;
        self.height = h;
    }
}

/// `n`, or 2 where it is smaller.
pub open spec fn at_least_two(n: int) -> int {
    if n < 2 {
        2
    } else {
        n
    }
}

impl Terminal {
    /// The pivot that positions are measured from.
    pub fn pivot(&self) -> (r: Pivot)
        ensures
            r == self@.pivot,
    {
        self.pivot
    }

    /// Set the tile at index `i`.
    fn write_tile(&mut self, i: usize, tile: Tile)
        requires
            old(self).wf(),
            i < old(self)@.tiles.len(),
        ensures
            final(self).wf(),
            final(self)@ == old(self)@.with_tiles(old(self)@.tiles.update(i as int, tile)),
    {
        self.tiles.set(i, tile);
    }

    /// Write a glyph, and the colors that are given, to the tile at index `i`.
    fn write_glyph(&mut self, i: usize, ch: char, fg: Option<Color>, bg: Option<Color>)
        requires
            old(self).wf(),
            i < old(self)@.tiles.len(),
        ensures
            final(self).wf(),
            final(self)@ == old(self)@.with_tiles(
                old(self)@.tiles.update(i as int, old(self)@.tiles[i as int].patched(Some(ch), fg, bg)),
            ),
    {
        let t = self.tiles[i].patch(Some(ch), fg, bg);
        self.tiles.set(i, t);
    }

    /// A copy of the tiles.
    fn copy_tiles(&self) -> (r: Vec<Tile>)
        ensures
            r@ == self@.tiles,
    {
        let n = self.tiles.len();
        let mut out: Vec<Tile> = Vec::new();
        let mut i: usize = 0;
        while i < n
            invariant
                n == self.tiles@.len(),
                i <= n,
                out@ == self.tiles@.subrange(0, i as int),
            decreases n - i,
        {
            out.push(self.tiles[i]);
            i = i + 1;
        }
        out
    }

    /// Put back tiles that [Self::copy_tiles] took.
    fn restore_tiles(&mut self, tiles: Vec<Tile>)
        requires
            old(self).wf(),
            tiles@.len() == old(self)@.tiles.len(),
        ensures
            final(self).wf(),
            final(self)@ == old(self)@.with_tiles(tiles@),
    {
        self.tiles = tiles;
    }
}

} // verus!
