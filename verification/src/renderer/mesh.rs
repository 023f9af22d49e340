//! The pivot of the terminal mesh.
use vstd::prelude::*;

use crate::padding::BoxStyle;
use crate::pivot::Pivot;
use crate::terminal::draw::border_padding;

verus! {

/// Pivot applied to the terminal mesh. This only affects how the terminal is
/// positioned in world space. Defaults to [Pivot::Center].
#[derive(Debug, Clone, Copy, PartialEq, Eq, Structural)]
pub struct TerminalMeshPivot(pub Pivot);

impl From<Pivot> for TerminalMeshPivot {
    fn from(value: Pivot) -> (r: Self) {
        Self(value)
    }
}

impl vstd::std_specs::convert::FromSpecImpl<Pivot> for TerminalMeshPivot {
    open spec fn obeys_from_spec() -> bool {
        true
    }

    open spec fn from_spec(v: Pivot) -> Self {
        TerminalMeshPivot(v)
    }
}

impl Default for TerminalMeshPivot {
    fn default() -> (r: Self)
        ensures
            r == TerminalMeshPivot(Pivot::Center),
    {
        Self(Pivot::Center)
    }
}

/// How far the terminal mesh's tiles move for a border around the terminal:
/// by the border's sides that face away from the mesh pivot, as a tile on
/// each side with a glyph other than a space; nothing at the center or without
/// a border.
pub open spec fn border_offset_spec(pivot: Pivot, border: Option<BoxStyle>) -> (int, int) {
    match border {
        None => (0, 0),
        Some(s) => {
            let p = border_padding(s);
            (
                if pivot.x_halves() == 0 {
                    p.left as int
                } else if pivot.x_halves() == 2 {
                    -(p.right as int)
                } else {
                    0
                },
                if pivot.y_halves() == 0 {
                    p.bottom as int
                } else if pivot.y_halves() == 2 {
                    -(p.top as int)
                } else {
                    0
                },
            )
        },
    }
}

/// The offset of the terminal mesh's tiles for a border around the terminal,
/// by the mesh pivot.
pub fn border_offset(pivot: Pivot, border: Option<BoxStyle>) -> (r: [i32; 2])
    ensures
        (r[0] as int, r[1] as int) == border_offset_spec(pivot, border),
{
    match border {
        None => [0, 0],
        Some(s) => {
            let left: i32 = if s.top_left != ' ' || s.center_left != ' ' || s.bottom_left != ' ' {
                1
            } else {
                0
            };
            let right: i32 = if s.top_right != ' ' || s.center_right != ' ' || s.bottom_right
                != ' ' {
                1
            } else {
                0
            };
            let top: i32 = if s.top_left != ' ' || s.top_center != ' ' || s.top_right != ' ' {
                1
            } else {
                0
            };
            let bottom: i32 = if s.bottom_left != ' ' || s.bottom_center != ' ' || s.bottom_right
                != ' ' {
                1
            } else {
                0
            };
            match pivot {
                Pivot::TopLeft => [left, -top],
                Pivot::TopCenter => [0, -top],
                Pivot::TopRight => [-right, -top],
                Pivot::LeftCenter => [left, 0],
                Pivot::RightCenter => [-right, 0],
                Pivot::BottomLeft => [left, bottom],
                Pivot::BottomCenter => [0, bottom],
                Pivot::BottomRight => [-right, bottom],
                Pivot::Center => [0, 0],
            }
        },
    }
}

} // verus!
