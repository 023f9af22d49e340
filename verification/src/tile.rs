//! A single terminal tile: a glyph with a foreground and a background color.
use vstd::prelude::*;

use crate::color::{Color, BLACK, WHITE};

verus! {

#[derive(Debug, Clone, Copy, PartialEq, Eq, Structural)]
pub struct Tile {
    pub glyph: char,
    pub fg_color: Color,
    pub bg_color: Color,
}

/// The default tile: a space, white on black.
pub open spec fn default_tile() -> Tile {
    Tile { glyph: ' ', fg_color: WHITE, bg_color: BLACK }
}

impl Default for Tile {
    fn default() -> (r: Self)
        ensures
            r == default_tile(),
    {
        Self { glyph: ' ', fg_color: WHITE, bg_color: BLACK }
    }
}

impl Tile {
    pub fn new(glyph: char, fg_color: Color, bg_color: Color) -> (r: Self)
        ensures
            r == (Tile { glyph, fg_color, bg_color }),
    {
        Self { glyph, fg_color, bg_color }
    }

    /// Set the foreground color; returns the tile for further changes.
    pub fn fg(&mut self, color: Color) -> (r: &mut Self)
        ensures
            *r == (Tile { fg_color: color, ..*old(self) }),
            *final(self) == *final(r),
    {
        self.fg_color = color;
        self
    }

    /// Set the background color; returns the tile for further changes.
    pub fn bg(&mut self, color: Color) -> (r: &mut Self)
        ensures
            *r == (Tile { bg_color: color, ..*old(self) }),
            *final(self) == *final(r),
    {
        self.bg_color = color;
        self
    }

    /// Set the glyph; returns the tile for further changes.
    pub fn char(&mut self, glyph: char) -> (r: &mut Self)
        ensures
            *r == (Tile { glyph, ..*old(self) }),
            *final(self) == *final(r),
    {
        self.glyph = glyph;
        self
    }

    pub fn with_fg(self, color: Color) -> (r: Self)
        ensures
            r == (Tile { fg_color: color, ..self }),
    {
        let mut t = self;
        t.fg(color);
        t
    }

    pub fn with_bg(self, color: Color) -> (r: Self)
        ensures
            r == (Tile { bg_color: color, ..self }),
    {
        let mut t = self;
        t.bg(color);
        t
    }

    pub fn with_char(self, glyph: char) -> (r: Self)
        ensures
            r == (Tile { glyph, ..self }),
    {
        let mut t = self;
        t.char(glyph);
        t
    }

    /// The tile with each of the given parts replaced, and the others kept.
    pub fn patch(self, glyph: Option<char>, fg: Option<Color>, bg: Option<Color>) -> (r: Self)
        ensures
            r == (Tile {
                glyph: match glyph {
                    Some(g) => g,
                    None => self.glyph,
                },
                fg_color: match fg {
                    Some(c) => c,
                    None => self.fg_color,
                },
                bg_color: match bg {
                    Some(c) => c,
                    None => self.bg_color,
                },
            }),
    {
        let mut t = self;
        if let Some(g) = glyph {
            t.glyph = g;
        }
        if let Some(c) = fg {
            t.fg_color = c;
        }
        if let Some(c) = bg {
            t.bg_color = c;
        }
        t
    }
}

} // verus!
