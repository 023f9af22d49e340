//! Padding around a terminal's inner area, and the glyphs and colors of the
//! boxes and borders drawn on a terminal.
use vstd::prelude::*;

use crate::color::Color;

verus! {

/// Tiles reserved on each side of a terminal, outside its inner area.
#[derive(Debug, Clone, Copy, PartialEq, Eq, Structural, Default)]
pub struct Padding {
    pub left: usize,
    pub top: usize,
    pub right: usize,
    pub bottom: usize,
}

impl Padding {
    /// No padding on any side.
    pub open spec fn zero_spec() -> Padding {
        Padding { left: 0, top: 0, right: 0, bottom: 0 }
    }

    /// No padding on any side.
    pub fn zero() -> (p: Padding)
        ensures
            p == Padding::zero_spec(),
    {
        Padding { left: 0, top: 0, right: 0, bottom: 0 }
    }
}

/// How a box writes a color: the terminal's clear color, or a given color (`ColorWrite::Color`).
#[derive(Debug, Clone, Copy, PartialEq, Eq, Structural)]
pub enum ColorWrite {
    Clear,
    Color(Color),
}

/// The glyphs of a box's corners and edges, the colors it writes (none, to
/// keep the existing ones), and whether a border drawn with it sets the
/// terminal's padding.
#[derive(Debug, Clone, Copy, PartialEq, Eq, Structural)]
pub struct BoxStyle {
    pub top_left: char,
    pub top_center: char,
    pub top_right: char,
    pub center_left: char,
    pub center_right: char,
    pub bottom_left: char,
    pub bottom_center: char,
    pub bottom_right: char,
    pub fg_color: Option<ColorWrite>,
    pub bg_color: Option<ColorWrite>,
    pub reset_padding: bool,
}

/// The style of a box of single lines, which keeps existing colors and sets padding.
pub open spec fn single_line_style() -> BoxStyle {
    BoxStyle {
        top_left: '┌',
        top_center: '─',
        top_right: '┐',
        center_left: '│',
        center_right: '│',
        bottom_left: '└',
        bottom_center: '─',
        bottom_right: '┘',
        fg_color: None,
        bg_color: None,
        reset_padding: true,
    }
}

/// The style of a box of double lines, which keeps existing colors and sets padding.
pub open spec fn double_line_style() -> BoxStyle {
    BoxStyle {
        top_left: '╔',
        top_center: '═',
        top_right: '╗',
        center_left: '║',
        center_right: '║',
        bottom_left: '╚',
        bottom_center: '═',
        bottom_right: '╝',
        fg_color: None,
        bg_color: None,
        reset_padding: true,
    }
}

impl BoxStyle {
    /// A box of single lines that keeps existing colors and sets padding.
    pub fn single_line() -> (s: BoxStyle)
        ensures
            s == single_line_style(),
    {
        BoxStyle {
            top_left: '┌',
            top_center: '─',
            top_right: '┐',
            center_left: '│',
            center_right: '│',
            bottom_left: '└',
            bottom_center: '─',
            bottom_right: '┘',
            fg_color: None,
            bg_color: None,
            reset_padding: true,
        }
    }

    /// A box of double lines that keeps existing colors and sets padding.
    pub fn double_line() -> (s: BoxStyle)
        ensures
            s == double_line_style(),
    {
        BoxStyle {
            top_left: '╔',
            top_center: '═',
            top_right: '╗',
            center_left: '║',
            center_right: '║',
            bottom_left: '╚',
            bottom_center: '═',
            bottom_right: '╝',
            fg_color: None,
            bg_color: None,
            reset_padding: true,
        }
    }

    /// The same box, but drawing it as a border keeps the terminal's padding.
    pub fn dont_reset_padding(self) -> (s: BoxStyle)
        ensures
            s == (BoxStyle { reset_padding: false, ..self }),
    {
        BoxStyle { reset_padding: false, ..self }
    }
}

} // verus!
