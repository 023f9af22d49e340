//! The built in terminal fonts.
use vstd::prelude::*;

verus! {

/// Allows for simple switching of terminal fonts. A custom font can be used by
/// specifying the asset path with [TerminalFont::Custom].
#[derive(Debug, Clone, PartialEq, Eq)]
pub enum TerminalFont {
    Px4378x8,
    ZxEvolution8x8,
    Pastiche8x8,
    Rexpaint8x8,
    Unscii8x8,
    Px4378x16,
    Taffer10x10,
    TaritusCurses8x12,
    JtCurses12x12,
    SazaroteCurses12x12,
    Custom(String),
}

impl Default for TerminalFont {
    fn default() -> (r: Self)
        ensures
            r is Px4378x8,
    {
        TerminalFont::Px4378x8
    }
}

/// The embedded asset path of a built in font.
pub open spec fn font_asset_path(font: TerminalFont) -> Seq<char> {
    match font {
        TerminalFont::Unscii8x8 => "embedded://bevy_ascii_terminal/renderer/built_in_fonts/unscii_8x8.png"@,
        TerminalFont::JtCurses12x12 => "embedded://bevy_ascii_terminal/renderer/built_in_fonts/jt_curses_12x12.png"@,
        TerminalFont::Px4378x8 => "embedded://bevy_ascii_terminal/renderer/built_in_fonts/px437_8x8.png"@,
        TerminalFont::Px4378x16 => "embedded://bevy_ascii_terminal/renderer/built_in_fonts/px437_8x16.png"@,
        TerminalFont::Taffer10x10 => "embedded://bevy_ascii_terminal/renderer/built_in_fonts/taffer_10x10.png"@,
        TerminalFont::SazaroteCurses12x12 => "embedded://bevy_ascii_terminal/renderer/built_in_fonts/sazarote_curses_12x12.png"@,
        TerminalFont::TaritusCurses8x12 => "embedded://bevy_ascii_terminal/renderer/built_in_fonts/taritus_curses_8x12.png"@,
        TerminalFont::ZxEvolution8x8 => "embedded://bevy_ascii_terminal/renderer/built_in_fonts/zx_evolution_8x8.png"@,
        TerminalFont::Pastiche8x8 => "embedded://bevy_ascii_terminal/renderer/built_in_fonts/pastiche_8x8.png"@,
        TerminalFont::Rexpaint8x8 => "embedded://bevy_ascii_terminal/renderer/built_in_fonts/rexpaint_8x8.png"@,
        TerminalFont::Custom(_) => Seq::empty(),
    }
}

impl TerminalFont {
    /// The embedded asset path of a built in font. A custom font has none.
    pub fn asset_path(&self) -> (r: &'static str)
        requires
            !(self is Custom),
        ensures
            r@ == font_asset_path(*self),
    {
        match self {
            TerminalFont::Unscii8x8 => "embedded://bevy_ascii_terminal/renderer/built_in_fonts/unscii_8x8.png",
            TerminalFont::JtCurses12x12 => "embedded://bevy_ascii_terminal/renderer/built_in_fonts/jt_curses_12x12.png",
            TerminalFont::Px4378x8 => "embedded://bevy_ascii_terminal/renderer/built_in_fonts/px437_8x8.png",
            TerminalFont::Px4378x16 => "embedded://bevy_ascii_terminal/renderer/built_in_fonts/px437_8x16.png",
            TerminalFont::Taffer10x10 => "embedded://bevy_ascii_terminal/renderer/built_in_fonts/taffer_10x10.png",
            TerminalFont::SazaroteCurses12x12 => "embedded://bevy_ascii_terminal/renderer/built_in_fonts/sazarote_curses_12x12.png",
            TerminalFont::TaritusCurses8x12 => "embedded://bevy_ascii_terminal/renderer/built_in_fonts/taritus_curses_8x12.png",
            TerminalFont::ZxEvolution8x8 => "embedded://bevy_ascii_terminal/renderer/built_in_fonts/zx_evolution_8x8.png",
            TerminalFont::Pastiche8x8 => "embedded://bevy_ascii_terminal/renderer/built_in_fonts/pastiche_8x8.png",
            TerminalFont::Rexpaint8x8 => "embedded://bevy_ascii_terminal/renderer/built_in_fonts/rexpaint_8x8.png",
            TerminalFont::Custom(_) => {
                assert(false);
                ""
            },
        }
    }
}

} // verus!
