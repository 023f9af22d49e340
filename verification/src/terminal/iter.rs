//! Reading rows, columns and rectangles of a terminal's tiles.
use vstd::prelude::*;

use crate::grid_rect::GridRect;
use crate::terminal::{Terminal, TerminalView};
use crate::tile::Tile;

verus! {

/// The tiles of the rows from `r` up to the top of a grid `w` tiles wide and
/// `h` tall, each from column `left` to column `right`, row by row.
pub open spec fn rect_rows(tiles: Seq<Tile>, w: int, h: int, r: int, left: int, right: int) -> Seq<
    Tile,
>
    decreases h - r,
{
    if r >= h || r < 0 {
        seq![]
    } else {
        tiles.subrange(r * w + left, r * w + right + 1) + rect_rows(tiles, w, h, r + 1, left, right)
    }
}

/// The number of tiles of a column that starts at index `col` of `len`
/// tiles in rows `w` wide.
pub open spec fn column_len(len: int, w: int, col: int) -> int {
    if col < len {
        (len - col + w - 1) / w
    } else {
        0
    }
}

impl Terminal {
    /// The tiles of a row, counted from 0 at the bottom.
    pub fn iter_row(&self, row: usize) -> (r: Vec<Tile>)
        requires
            self.wf(),
            self@.width * row + self@.width <= self@.tiles.len(),
        ensures
            r@ == self@.tiles.subrange(
                self@.width * row as int,
                self@.width * row as int + self@.width,
            ),
    {
        let w = self.width();
        let start = w * row;
        let tiles = self.tiles();
        let mut out: Vec<Tile> = Vec::new();
        let mut k: usize = 0;
        while k < w
            invariant
                self.wf(),
                tiles@ == self@.tiles,
                w == self@.width,
                start == w * row,
                start + w <= tiles@.len(),
                k <= w,
                out@ == tiles@.subrange(start as int, start + k),
            decreases w - k,
        {
            out.push(tiles[start + k]);
            k = k + 1;
            proof {
                assert(out@ =~= tiles@.subrange(start as int, start + k));
            }
        }
        out
    }

    /// The tiles of a column, counted from 0 at the left, from the bottom up.
    pub fn iter_column(&self, column: usize) -> (r: Vec<Tile>)
        requires
            self.wf(),
            self@.width > 0,
        ensures
            r@.len() == column_len(self@.tiles.len() as int, self@.width as int, column as int),
            forall|k: int| 0 <= k < r@.len() ==> r@[k] == self@.tiles[column + k * self@.width],
    {
        let w = self.width();
        let tiles = self.tiles();
        let n = tiles.len();
        let mut out: Vec<Tile> = Vec::new();
        let mut i = column;
        let mut done = column >= n;
        proof {
            assert(out@.len() * w == 0);
        }
        while !done
            invariant
                self.wf(),
                tiles@ == self@.tiles,
                n == tiles@.len(),
                w == self@.width,
                w > 0,
                column <= i,
                !done ==> i == column + out@.len() * w,
                !done ==> i < n,
                forall|k: int| 0 <= k < out@.len() ==> out@[k] == tiles@[column + k * w],
                done ==> out@.len() == column_len(n as int, w as int, column as int),
            decreases 2 * (n - i) + if done {
                0int
            } else {
                1int
            },
        {
            out.push(tiles[i]);
            proof {
                lemma_column_step(n as int, w as int, column as int, out@.len() as int);
                assert((out@.len() - 1) * w + w == out@.len() * w) by (nonlinear_arith);
            }
            if n - i <= w {
                done = true;
            } else {
                i = i + w;
            }
        }
        out
    }
}

/// A step along a column: `k + 1` tiles are taken exactly when the `(k + 1)`-th
/// starting index is still inside.
proof fn lemma_column_step(n: int, w: int, col: int, k: int)
    requires
        w > 0,
        k >= 1,
        col + (k - 1) * w < n,
        0 <= col,
    ensures
        (col + k * w < n) ==> k < column_len(n, w, col),
        (col + k * w >= n) ==> k == column_len(n, w, col),
{
    assert((col + k * w < n) ==> k < (n - col + w - 1) / w) by (nonlinear_arith)
        requires
            w > 0,
            k >= 1,
    ;
    assert((col + (k - 1) * w < n && col + k * w >= n) ==> k == (n - col + w - 1) / w)
        by (nonlinear_arith)
        requires
            w > 0,
            k >= 1,
    ;
}

impl Terminal {
    /// The tiles of a rectangle, row by row from its bottom row up to the top
    /// of the terminal, each from its left column to its right column. Nothing
    /// where its bottom row is off the terminal.
    pub fn iter_rect(&self, rect: GridRect) -> (r: Vec<Tile>)
        requires
            self.wf(),
            self@.width > 0,
            (0 <= rect.pos[1] < self@.height) ==> {
                &&& rect.size[0] <= i32::MAX
                &&& rect.pos[0] + rect.size[0] - 1 <= i32::MAX
                &&& 0 <= rect.pos[0] <= rect.pos[0] + rect.size[0]
                &&& rect.pos[0] + rect.size[0] <= self@.width
            },
        ensures
            r@ == rect_rows(
                self@.tiles,
                self@.width as int,
                self@.height as int,
                rect.pos[1] as int,
                rect.pos[0] as int,
                rect.pos[0] + rect.size[0] - 1,
            ),
    {
        let w = self.width();
        let h = self.height();
        let b = rect.bottom();
        let ghost target = rect_rows(
            self@.tiles,
            w as int,
            h as int,
            b as int,
            rect.pos[0] as int,
            rect.pos[0] + rect.size[0] - 1,
        );
        if b < 0 || b as usize >= h {
            return Vec::new();
        }
        let l = rect.left() as usize;
        let rt = rect.right() as i64;
        let tiles = self.tiles();
        let mut out: Vec<Tile> = Vec::new();
        let mut row = b as usize;
        while row < h
            invariant
                self.wf(),
                tiles@ == self@.tiles,
                w == self@.width,
                h == self@.height,
                tiles@.len() == w * h,
                0 <= l <= rt + 1 <= w,
                b as int <= row <= h,
                target == rect_rows(tiles@, w as int, h as int, b as int, l as int, rt as int),
                out@ + rect_rows(tiles@, w as int, h as int, row as int, l as int, rt as int)
                    == target,
            decreases h - row,
        {
            let ghost before = out@;
            proof {
                assert(row * w + w <= w * h) by (nonlinear_arith)
                    requires
                        row < h,
                ;
            }
            let start = row * w;
            let end = (rt + 1) as usize;
            let mut c = l;
            while c < end
                invariant
                    tiles@.len() == w * h,
                    tiles@.len() <= usize::MAX,
                    start == row * w,
                    start + w <= tiles@.len(),
                    end == rt + 1,
                    0 <= l <= c,
                    c <= end <= w,
                    out@ == before + tiles@.subrange(start + l, start + c),
                decreases end - c,
            {
                out.push(tiles[start + c]);
                c = c + 1;
                proof {
                    assert(out@ =~= before + tiles@.subrange(start + l, start + c));
                }
            }
            proof {
                assert(out@ + rect_rows(tiles@, w as int, h as int, row + 1, l as int, rt as int)
                    =~= before + rect_rows(tiles@, w as int, h as int, row as int, l as int, rt as int));
            }
            row = row + 1;
        }
        proof {
            assert(out@ =~= target);
        }
        out
    }

    /// Every tile with its position, from the bottom left, row by row.
    pub fn iter_xy(&self) -> (r: Vec<([i32; 2], Tile)>)
        requires
            self.wf(),
            self@.tiles.len() <= i32::MAX + 1,
        ensures
            r@.len() == self@.tiles.len(),
            forall|i: int|
                0 <= i < r@.len() ==> (#[trigger] r@[i]).0[0] == i % self@.width as int && r@[i].0[1]
                    == i / self@.width as int && r@[i].1 == self@.tiles[i],
    {
        let tiles = self.tiles();
        let n = tiles.len();
        let mut out: Vec<([i32; 2], Tile)> = Vec::new();
        let mut i: usize = 0;
        while i < n
            invariant
                self.wf(),
                tiles@ == self@.tiles,
                n == tiles@.len(),
                n <= i32::MAX + 1,
                i <= n,
                out@.len() == i,
                n > 0 ==> self@.width > 0,
                forall|k: int|
                    0 <= k < i ==> (#[trigger] out@[k]).0[0] == k % self@.width as int && out@[k].0[1]
                        == k / self@.width as int && out@[k].1 == tiles@[k],
            decreases n - i,
        {
            let xy = self.index_to_tile(i);
            out.push((xy, tiles[i]));
            i = i + 1;
        }
        out
    }

    /// The local grid bounds of the terminal: from the bottom left tile, its size.
    pub fn bounds(&self) -> (r: GridRect)
        ensures
            r.pos[0] == 0 && r.pos[1] == 0,
            r.size[0] == self@.width && r.size[1] == self@.height,
    {
        GridRect::new([0, 0], self.size())
    }
}

} // verus!
