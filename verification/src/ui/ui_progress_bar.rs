//! A progress bar: a value out of a maximum, and how its segments are drawn.
use vstd::prelude::*;
use vstd::string::*;

use crate::color::{Color, BLUE, WHITE};

verus! {

/// The glyphs of a progress bar's segments.
#[derive(Debug, Clone)]
pub enum GlyphFill {
    /// The entire progress bar is always a single glyph, regardless of value.
    Static(char),
    /// Each segment will be filled or empty based on value.
    EmptyOrFilled(char, char),
    /// The right-most segment will transition through the glyph string based
    /// on value. All other segments will be filled or empty.
    EmptyOrFilledWithTransition(String),
}

impl Default for GlyphFill {
    fn default() -> (r: Self)
        ensures
            r == GlyphFill::EmptyOrFilled('░', '▓'),
    {
        GlyphFill::EmptyOrFilled('░', '▓')
    }
}

/// The colors of a progress bar's segments.
#[derive(Debug, Clone, Copy, PartialEq, Eq, Structural)]
pub enum ColorFill {
    /// The entire bar is always a single color, regardless of value.
    Static(Color),
    /// Each segment will be either the empty color or the filled color.
    EmptyOrFilled(Color, Color),
    /// The right-most segment will transition from filled color to empty
    /// color. All other segments will be filled or empty.
    EmptyToFilledSegmentedTransition(Color, Color),
    /// The entire bar will transition from filled color to empty color based
    /// on value.
    EmptyToFilledFullTransition(Color, Color),
    /// Each segment will be colored based on its normalized position. Value is
    /// ignored.
    EmptyToFilledStaticTransition(Color, Color),
}

impl Default for ColorFill {
    fn default() -> (r: Self)
        ensures
            r == ColorFill::EmptyOrFilled(WHITE, BLUE),
    {
        ColorFill::EmptyOrFilled(WHITE, BLUE)
    }
}

/// A progress bar: `value` out of `max`, drawn with the glyphs of
/// `glyph_fill` and the colors of `color_fill`.
#[derive(Debug, Clone)]
pub struct UiProgressBar {
    pub max: i32,
    pub value: i32,
    pub glyph_fill: GlyphFill,
    pub color_fill: ColorFill,
}

impl Default for UiProgressBar {
    fn default() -> (r: Self)
        ensures
            r.max == 100,
            r.value == 0,
            r.glyph_fill == GlyphFill::EmptyOrFilled('░', '▓'),
            r.color_fill == ColorFill::EmptyOrFilled(WHITE, BLUE),
    {
        UiProgressBar {
            max: 100,
            value: 0,
            glyph_fill: GlyphFill::default(),
            color_fill: ColorFill::default(),
        }
    }
}

impl UiProgressBar {
    /// A bar at `value` out of `max`, with the default glyphs and colors.
    pub fn new(value: i32, max: i32) -> (r: Self)
        ensures
            r.max == max,
            r.value == value,
            r.glyph_fill == GlyphFill::EmptyOrFilled('░', '▓'),
            r.color_fill == ColorFill::EmptyOrFilled(WHITE, BLUE),
    {
        UiProgressBar { max, value, ..UiProgressBar::default() }
    }

    /// A bar whose right-most segment steps through " ░▒▓█".
    pub fn transition_bar(value: i32, max: i32) -> (r: UiProgressBar)
        ensures
            r.max == max,
            r.value == value,
            r.glyph_fill matches GlyphFill::EmptyOrFilledWithTransition(s) && s@ == " ░▒▓█"@,
            r.color_fill == ColorFill::EmptyOrFilled(WHITE, BLUE),
    {
        let s = String::from_str(" ░▒▓█");
        UiProgressBar::new(value, max).glyph_fill(GlyphFill::EmptyOrFilledWithTransition(s))
    }

    /// The current value.
    pub fn value(&self) -> (r: i32)
        ensures
            r == self.value,
    {
        self.value
    }

    /// Set the value, no higher than the maximum.
    pub fn set_value(&mut self, value: i32)
        ensures
            final(self).value == if value < old(self).max {
                value
            } else {
                old(self).max
            },
            final(self).max == old(self).max,
            final(self).glyph_fill == old(self).glyph_fill,
            final(self).color_fill == old(self).color_fill,
    {
        self.value = if value < self.max {
            value
        } else {
            self.max
        };
    }

    /// Use the glyphs of `glyph_fill`.
    pub fn glyph_fill(self, glyph_fill: GlyphFill) -> (r: UiProgressBar)
        ensures
            r == (UiProgressBar { glyph_fill, ..self }),
    {
        UiProgressBar { glyph_fill, ..self }
    }

    /// Use the colors of `color_fill`.
    pub fn color_fill(self, color_fill: ColorFill) -> (r: UiProgressBar)
        ensures
            r == (UiProgressBar { color_fill, ..self }),
    {
        UiProgressBar { color_fill, ..self }
    }
}

} // verus!
