//! Pivots: the corner, edge center or center of a sized grid that positions are
//! measured from.
use vstd::prelude::*;

verus! {

/// A pivot on a 2d sized grid. Each pivot has its own coordinate space.
#[derive(Clone, Copy, Debug, PartialEq, Eq, Structural)]
pub enum Pivot {
    /// X increases to the right, Y increases downwards.
    TopLeft,
    /// X increases to the right, Y increases downwards.
    TopCenter,
    /// X increases to the left, Y increases downwards.
    TopRight,
    /// X increases to the right, Y increases upwards.
    LeftCenter,
    /// X increases to the left, Y increases upwards.
    RightCenter,
    /// X increases to the right, Y increases upwards.
    BottomLeft,
    /// X increases to the right, Y increases upwards.
    BottomCenter,
    /// X increases to the left, Y increases upwards.
    BottomRight,
    /// X increases to the right, Y increases upwards.
    Center,
}

impl Pivot {
    /// The pivot's horizontal position in halves of the grid's width: 0 at the
    /// left edge, 1 in the center, 2 at the right edge.
    pub open spec fn x_halves(self) -> int {
        match self {
            Pivot::TopLeft | Pivot::LeftCenter | Pivot::BottomLeft => 0,
            Pivot::TopCenter | Pivot::Center | Pivot::BottomCenter => 1,
            Pivot::TopRight | Pivot::RightCenter | Pivot::BottomRight => 2,
        }
    }

    /// The pivot's vertical position in halves of the grid's height: 0 at the
    /// bottom edge, 1 in the center, 2 at the top edge.
    pub open spec fn y_halves(self) -> int {
        match self {
            Pivot::BottomLeft | Pivot::BottomCenter | Pivot::BottomRight => 0,
            Pivot::LeftCenter | Pivot::Center | Pivot::RightCenter => 1,
            Pivot::TopLeft | Pivot::TopCenter | Pivot::TopRight => 2,
        }
    }

    /// The pivot's horizontal position in halves of the width, as in [Self::x_halves].
    pub fn x_halves_exec(&self) -> (h: u8)
        ensures
            h as int == self.x_halves(),
    {
        match self {
            Pivot::TopLeft | Pivot::LeftCenter | Pivot::BottomLeft => 0,
            Pivot::TopCenter | Pivot::Center | Pivot::BottomCenter => 1,
            Pivot::TopRight | Pivot::RightCenter | Pivot::BottomRight => 2,
        }
    }

    /// The pivot's vertical position in halves of the height, as in [Self::y_halves].
    pub fn y_halves_exec(&self) -> (h: u8)
        ensures
            h as int == self.y_halves(),
    {
        match self {
            Pivot::BottomLeft | Pivot::BottomCenter | Pivot::BottomRight => 0,
            Pivot::LeftCenter | Pivot::Center | Pivot::RightCenter => 1,
            Pivot::TopLeft | Pivot::TopCenter | Pivot::TopRight => 2,
        }
    }
}

/// Where a pivot lies along an axis of `len` tiles, given its position in
/// halves of the axis: `(len - 1) * halves / 2`, with a half rounded away from
/// zero.
pub open spec fn pivot_offset(len: int, halves: int) -> int {
    if halves == 0 {
        0
    } else if halves == 2 {
        len - 1
    } else if len == 0 {
        -1
    } else {
        len / 2
    }
}

impl Pivot {
    /// `x` measured along the pivot's x axis, which points left for pivots on
    /// the right edge.
    pub open spec fn along_x(self, x: int) -> int {
        if self.x_halves() == 2 {
            -x
        } else {
            x
        }
    }

    /// `y` measured along the pivot's y axis, which points down for pivots on
    /// the top edge.
    pub open spec fn along_y(self, y: int) -> int {
        if self.y_halves() == 2 {
            -y
        } else {
            y
        }
    }

    /// The point `(x, y)` of the pivot's coordinate space on a grid of
    /// `w` by `h` tiles, measured from the grid's bottom left tile.
    pub open spec fn place(self, x: int, y: int, w: int, h: int) -> (int, int) {
        (
            pivot_offset(w, self.x_halves()) + self.along_x(x),
            pivot_offset(h, self.y_halves()) + self.along_y(y),
        )
    }

    /// The position of the pivot on a grid of `w` by `h` tiles.
    pub fn pivot_position(&self, w: u32, h: u32) -> (r: (i64, i64))
        ensures
            r.0 == pivot_offset(w as int, self.x_halves()),
            r.1 == pivot_offset(h as int, self.y_halves()),
    {
        (offset_along(w, self.x_halves_exec()), offset_along(h, self.y_halves_exec()))
    }

    /// Transform the point `xy` of the pivot's coordinate space into a
    /// position on a grid of `w` by `h` tiles, measured from the bottom left.
    pub fn transform_point(&self, xy: [i32; 2], w: u32, h: u32) -> (r: (i64, i64))
        ensures
            (r.0 as int, r.1 as int) == self.place(xy[0] as int, xy[1] as int, w as int, h as int),
    {
        let (px, py) = self.pivot_position(w, h);
        let x = if self.x_halves_exec() == 2 {
            -(xy[0] as i64)
        } else {
            xy[0] as i64
        };
        let y = if self.y_halves_exec() == 2 {
            -(xy[1] as i64)
        } else {
            xy[1] as i64
        };
        (px + x, py + y)
    }
}

fn offset_along(len: u32, halves: u8) -> (r: i64)
    requires
        halves <= 2,
    ensures
        r == pivot_offset(len as int, halves as int),
{
    if halves == 0 {
        0
    } else if halves == 2 {
        len as i64 - 1
    } else if len == 0 {
        -1
    } else {
        (len / 2) as i64
    }
}

/// A grid point that may carry a pivot of its own, used in place of the
/// terminal's pivot.
#[derive(Clone, Copy, Debug)]
pub struct PivotedPoint {
    pub point: [i32; 2],
    pub pivot: Option<Pivot>,
}

impl PivotedPoint {
    pub fn new(xy: [i32; 2], pivot: Pivot) -> (r: Self)
        ensures
            r.point == xy,
            r.pivot == Some(pivot),
    {
        PivotedPoint { point: xy, pivot: Some(pivot) }
    }
}

impl From<[i32; 2]> for PivotedPoint {
    fn from(xy: [i32; 2]) -> (r: Self) {
        PivotedPoint { point: xy, pivot: None }
    }
}

impl vstd::std_specs::convert::FromSpecImpl<[i32; 2]> for PivotedPoint {
    open spec fn obeys_from_spec() -> bool {
        true
    }

    open spec fn from_spec(v: [i32; 2]) -> Self {
        PivotedPoint { point: v, pivot: None }
    }
}

} // verus!
