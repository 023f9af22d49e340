//! A rectangle of tiles on a grid.
use vstd::prelude::*;

verus! {

/// A rectangle of tiles: the position of its bottom left tile and its size.
#[derive(Clone, Copy, Debug)]
pub struct GridRect {
    pub pos: [i32; 2],
    pub size: [u32; 2],
}

impl GridRect {
    pub fn new(pos: [i32; 2], size: [u32; 2]) -> (r: Self)
        ensures
            r.pos == pos,
            r.size == size,
    {
        GridRect { pos, size }
    }

    /// The x position of the left column of the rect.
    pub fn left(&self) -> (r: i32)
        ensures
            r == self.pos[0],
    {
        self.pos[0]
    }

    /// The y position of the bottom row of the rect.
    pub fn bottom(&self) -> (r: i32)
        ensures
            r == self.pos[1],
    {
        self.pos[1]
    }

    /// The x position of the right column of the rect.
    pub fn right(&self) -> (r: i32)
        requires
            self.size[0] <= i32::MAX,
            i32::MIN <= self.pos[0] + self.size[0] - 1 <= i32::MAX,
        ensures
            r == self.pos[0] + self.size[0] - 1,
    {
        (self.pos[0] as i64 + self.size[0] as i64 - 1) as i32
    }

    /// The y position of the top row of the rect.
    pub fn top(&self) -> (r: i32)
        requires
            self.size[1] <= i32::MAX,
            i32::MIN <= self.pos[1] + self.size[1] - 1 <= i32::MAX,
        ensures
            r == self.pos[1] + self.size[1] - 1,
    {
        (self.pos[1] as i64 + self.size[1] as i64 - 1) as i32
    }

    pub fn width(&self) -> (r: usize)
        ensures
            r == self.size[0],
    {
        self.size[0] as usize
    }

    pub fn height(&self) -> (r: usize)
        ensures
            r == self.size[1],
    {
        self.size[1] as usize
    }
}

} // verus!
