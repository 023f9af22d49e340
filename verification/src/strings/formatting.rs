//! Decoration (colors, delimiters) and formatting (word wrap, spaces) that can
//! be applied to a string written to a terminal.
use vstd::prelude::*;

use crate::color::Color;
use crate::strings::utf8_text::chars_vec;

verus! {

/// The first two characters of `d`, as opening and closing delimiters.
pub open spec fn delimiter_pair(d: Seq<char>) -> (Option<char>, Option<char>) {
    (
        if d.len() > 0 {
            Some(d[0])
        } else {
            None
        },
        if d.len() > 1 {
            Some(d[1])
        } else {
            None
        },
    )
}

fn delimiters_of(d: &str) -> (r: (Option<char>, Option<char>))
    ensures
        r == delimiter_pair(d@),
{
    let cs = chars_vec(d);
    let first = if cs.len() > 0 {
        Some(cs[0])
    } else {
        None
    };
    let second = if cs.len() > 1 {
        Some(cs[1])
    } else {
        None
    };
    (first, second)
}

/// Optional decoration to be applied to a string being written to a terminal.
#[derive(Debug, Clone, Copy, Default)]
pub struct StringDecoration {
    /// An optional foreground color for the string. If set to None then the
    /// terminal's clear tile color will be used.
    pub fg_color: Option<Color>,
    /// An optional background color for the string. If set to None then the
    /// terminal's clear tile color will be used.
    pub bg_color: Option<Color>,
    /// An optional pair of delimiters to be placed around the string.
    pub delimiters: (Option<char>, Option<char>),
    /// If true, then the terminal's clear tile colors will be used for the
    /// string. If false then the fg and bg colors will be used if they are set.
    pub clear_colors: bool,
    /// If true the terminal will parse the string for tags before writing.
    pub parse_tags: bool,
}

/// No decoration.
pub open spec fn no_decoration() -> StringDecoration {
    StringDecoration {
        fg_color: None,
        bg_color: None,
        delimiters: (None, None),
        clear_colors: false,
        parse_tags: false,
    }
}

pub(crate) fn plain_decoration() -> (d: StringDecoration)
    ensures
        d == no_decoration(),
{
    StringDecoration {
        fg_color: None,
        bg_color: None,
        delimiters: (None, None),
        clear_colors: false,
        parse_tags: false,
    }
}

/// Optional formatting to be applied to a string being written to a terminal.
#[derive(Debug, Clone, Copy, PartialEq, Eq, Structural)]
pub struct StringFormatting {
    /// Defines whether or not 'empty' (" ") tiles will be modified when writing
    /// strings to the terminal. If set to false then colors will be applied even
    /// to empty tiles. Defaults to false.
    pub ignore_spaces: bool,
    /// Word wrap prevents words from being split across lines. Defaults to true.
    pub word_wrap: bool,
}

/// The default formatting: spaces are colored, words are wrapped.
pub open spec fn default_formatting() -> StringFormatting {
    StringFormatting { ignore_spaces: false, word_wrap: true }
}

impl Default for StringFormatting {
    fn default() -> (r: Self)
        ensures
            r == default_formatting(),
    {
        Self { ignore_spaces: false, word_wrap: true }
    }
}

impl StringFormatting {
    /// The default formatting without word wrap.
    pub fn without_word_wrap() -> (r: Self)
        ensures
            r == (StringFormatting { word_wrap: false, ..default_formatting() }),
    {
        Self { word_wrap: false, ..Self::default() }
    }
}

/// A string with optional [StringDecoration] and [StringFormatting] applied.
#[derive(Debug, Clone, Default)]
pub struct TerminalString<T> {
    pub string: T,
    pub decoration: StringDecoration,
    pub formatting: StringFormatting,
}

impl<T> TerminalString<T> {
    pub fn fg(self, color: Color) -> (r: Self)
        ensures
            r.string == self.string,
            r.formatting == self.formatting,
            r.decoration == (StringDecoration { fg_color: Some(color), ..self.decoration }),
    {
        let mut r = self;
        r.decoration.fg_color = Some(color);
        r
    }

    pub fn bg(self, color: Color) -> (r: Self)
        ensures
            r.string == self.string,
            r.formatting == self.formatting,
            r.decoration == (StringDecoration { bg_color: Some(color), ..self.decoration }),
    {
        let mut r = self;
        r.decoration.bg_color = Some(color);
        r
    }

    /// The first two characters of `delimiters` are placed before and after the string.
    pub fn delimiters(self, delimiters: &str) -> (r: Self)
        ensures
            r.string == self.string,
            r.formatting == self.formatting,
            r.decoration == (StringDecoration {
                delimiters: delimiter_pair(delimiters@),
                ..self.decoration
            }),
    {
        let mut r = self;
        r.decoration.delimiters = delimiters_of(delimiters);
        r
    }

    pub fn clear_colors(self) -> (r: Self)
        ensures
            r.string == self.string,
            r.formatting == self.formatting,
            r.decoration == (StringDecoration { clear_colors: true, ..self.decoration }),
    {
        let mut r = self;
        r.decoration.clear_colors = true;
        r
    }

    pub fn ignore_spaces(self) -> (r: Self)
        ensures
            r.string == self.string,
            r.decoration == self.decoration,
            r.formatting == (StringFormatting { ignore_spaces: true, ..self.formatting }),
    {
        let mut r = self;
        r.formatting.ignore_spaces = true;
        r
    }

    pub fn dont_word_wrap(self) -> (r: Self)
        ensures
            r.string == self.string,
            r.decoration == self.decoration,
            r.formatting == (StringFormatting { word_wrap: false, ..self.formatting }),
    {
        let mut r = self;
        r.formatting.word_wrap = false;
        r
    }
}

/// A string with optional [StringDecoration].
#[derive(Default)]
pub struct DecoratedString<T> {
    pub string: T,
    pub decoration: StringDecoration,
}

impl<T> DecoratedString<T> {
    /// The string with its decoration and formatting that ignores spaces.
    pub fn ignore_spaces(self) -> (r: TerminalString<T>)
        ensures
            r.string == self.string,
            r.decoration == self.decoration,
            r.formatting == (StringFormatting { ignore_spaces: true, ..default_formatting() }),
    {
        TerminalString {
            string: self.string,
            decoration: self.decoration,
            formatting: StringFormatting { ignore_spaces: true, ..StringFormatting::default() },
        }
    }

    /// The string with its decoration and the default formatting.
    pub fn into_terminal_string(self) -> (r: TerminalString<T>)
        ensures
            r.string == self.string,
            r.decoration == self.decoration,
            r.formatting == default_formatting(),
    {
        TerminalString {
            string: self.string,
            decoration: self.decoration,
            formatting: StringFormatting::default(),
        }
    }
}

/// A trait for creating a [DecoratedString].
pub trait StringDecorator<T>: Sized {
    /// Sets the foreground color for string tiles.
    fn fg(self, color: Color) -> (r: DecoratedString<T>)
        ensures
            r.decoration.fg_color == Some(color),
    ;

    /// Sets the background color for string tiles.
    fn bg(self, color: Color) -> (r: DecoratedString<T>)
        ensures
            r.decoration.bg_color == Some(color),
    ;

    /// Add a pair of delimiters to the string. The first character will be the
    /// opening delimiter and the second character will be the closing delimiter.
    fn delimiters(self, delimiters: &str) -> (r: DecoratedString<T>)
        ensures
            r.decoration.delimiters == delimiter_pair(delimiters@),
    ;

    /// Sets the string tile colors to match the terminal's clear tile.
    fn clear_colors(self) -> (r: DecoratedString<T>)
        ensures
            r.decoration.clear_colors,
    ;

    /// If set, the terminal will parse the string for embedded tags before writing.
    fn parse_tags(self) -> (r: DecoratedString<T>)
        ensures
            r.decoration.parse_tags,
    ;
}

impl<'a> StringDecorator<&'a str> for &'a str {
    fn fg(self, color: Color) -> (r: DecoratedString<&'a str>)
        ensures
            r.string == self,
            r.decoration == (StringDecoration { fg_color: Some(color), ..no_decoration() }),
    {
        DecoratedString {
            string: self,
            decoration: StringDecoration { fg_color: Some(color), ..plain_decoration() },
        }
    }

    fn bg(self, color: Color) -> (r: DecoratedString<&'a str>)
        ensures
            r.string == self,
            r.decoration == (StringDecoration { bg_color: Some(color), ..no_decoration() }),
    {
        DecoratedString {
            string: self,
            decoration: StringDecoration { bg_color: Some(color), ..plain_decoration() },
        }
    }

    fn delimiters(self, delimiters: &str) -> (r: DecoratedString<&'a str>)
        ensures
            r.string == self,
            r.decoration == (StringDecoration {
                delimiters: delimiter_pair(delimiters@),
                ..no_decoration()
            }),
    {
        DecoratedString {
            string: self,
            decoration: StringDecoration {
                delimiters: delimiters_of(delimiters),
                ..plain_decoration()
            },
        }
    }

    fn clear_colors(self) -> (r: DecoratedString<&'a str>)
        ensures
            r.string == self,
            r.decoration == (StringDecoration { clear_colors: true, ..no_decoration() }),
    {
        DecoratedString {
            string: self,
            decoration: StringDecoration { clear_colors: true, ..plain_decoration() },
        }
    }

    fn parse_tags(self) -> (r: DecoratedString<&'a str>)
        ensures
            r.string == self,
            r.decoration == (StringDecoration { parse_tags: true, ..no_decoration() }),
    {
        DecoratedString {
            string: self,
            decoration: StringDecoration { parse_tags: true, ..plain_decoration() },
        }
    }
}

impl<T> StringDecorator<T> for DecoratedString<T> {
    fn fg(self, color: Color) -> (r: DecoratedString<T>)
        ensures
            r.string == self.string,
            r.decoration == (StringDecoration { fg_color: Some(color), ..self.decoration }),
    {
        let mut r = self;
        r.decoration.fg_color = Some(color);
        r
    }

    fn bg(self, color: Color) -> (r: DecoratedString<T>)
        ensures
            r.string == self.string,
            r.decoration == (StringDecoration { bg_color: Some(color), ..self.decoration }),
    {
        let mut r = self;
        r.decoration.bg_color = Some(color);
        r
    }

    fn delimiters(self, delimiters: &str) -> (r: DecoratedString<T>)
        ensures
            r.string == self.string,
            r.decoration == (StringDecoration {
                delimiters: delimiter_pair(delimiters@),
                ..self.decoration
            }),
    {
        let mut r = self;
        r.decoration.delimiters = delimiters_of(delimiters);
        r
    }

    fn clear_colors(self) -> (r: DecoratedString<T>)
        ensures
            r.string == self.string,
            r.decoration == (StringDecoration { clear_colors: true, ..self.decoration }),
    {
        let mut r = self;
        r.decoration.clear_colors = true;
        r
    }

    fn parse_tags(self) -> (r: DecoratedString<T>)
        ensures
            r.string == self.string,
            r.decoration == (StringDecoration { parse_tags: true, ..self.decoration }),
    {
        let mut r = self;
        r.decoration.parse_tags = true;
        r
    }
}

/// A string with optional [StringFormatting].
#[derive(Default)]
pub struct FormattedString<T> {
    pub string: T,
    pub formatting: StringFormatting,
}

/// A trait for creating a [FormattedString].
pub trait StringFormatter<T>: Sized {
    fn ignore_spaces(self) -> (r: FormattedString<T>)
        ensures
            r.formatting.ignore_spaces,
    ;

    fn dont_word_wrap(self) -> (r: FormattedString<T>)
        ensures
            !r.formatting.word_wrap,
    ;
}

impl<'a> StringFormatter<&'a str> for &'a str {
    fn ignore_spaces(self) -> (r: FormattedString<&'a str>)
        ensures
            r.string == self,
            r.formatting == (StringFormatting { ignore_spaces: true, ..default_formatting() }),
    {
        FormattedString {
            string: self,
            formatting: StringFormatting { ignore_spaces: true, ..StringFormatting::default() },
        }
    }

    fn dont_word_wrap(self) -> (r: FormattedString<&'a str>)
        ensures
            r.string == self,
            r.formatting == (StringFormatting { word_wrap: false, ..default_formatting() }),
    {
        FormattedString {
            string: self,
            formatting: StringFormatting { word_wrap: false, ..StringFormatting::default() },
        }
    }
}

impl<T> StringFormatter<T> for FormattedString<T> {
    fn ignore_spaces(self) -> (r: FormattedString<T>)
        ensures
            r.string == self.string,
            r.formatting == (StringFormatting { ignore_spaces: true, ..self.formatting }),
    {
        let mut r = self;
        r.formatting.ignore_spaces = true;
        r
    }

    fn dont_word_wrap(self) -> (r: FormattedString<T>)
        ensures
            r.string == self.string,
            r.formatting == (StringFormatting { word_wrap: false, ..self.formatting }),
    {
        let mut r = self;
        r.formatting.word_wrap = false;
        r
    }
}

impl<T> FormattedString<T> {
    pub fn fg(self, color: Color) -> (r: TerminalString<T>)
        ensures
            r.string == self.string,
            r.formatting == self.formatting,
            r.decoration == (StringDecoration { fg_color: Some(color), ..no_decoration() }),
    {
        TerminalString {
            string: self.string,
            decoration: StringDecoration { fg_color: Some(color), ..plain_decoration() },
            formatting: self.formatting,
        }
    }

    pub fn bg(self, color: Color) -> (r: TerminalString<T>)
        ensures
            r.string == self.string,
            r.formatting == self.formatting,
            r.decoration == (StringDecoration { bg_color: Some(color), ..no_decoration() }),
    {
        TerminalString {
            string: self.string,
            decoration: StringDecoration { bg_color: Some(color), ..plain_decoration() },
            formatting: self.formatting,
        }
    }

    pub fn delimiters(self, delimiters: &str) -> (r: TerminalString<T>)
        ensures
            r.string == self.string,
            r.formatting == self.formatting,
            r.decoration == (StringDecoration {
                delimiters: delimiter_pair(delimiters@),
                ..no_decoration()
            }),
    {
        TerminalString {
            string: self.string,
            decoration: StringDecoration {
                delimiters: delimiters_of(delimiters),
                ..plain_decoration()
            },
            formatting: self.formatting,
        }
    }

    /// The string with its formatting and no decoration.
    pub fn into_terminal_string(self) -> (r: TerminalString<T>)
        ensures
            r.string == self.string,
            r.formatting == self.formatting,
            r.decoration == no_decoration(),
    {
        TerminalString {
            string: self.string,
            formatting: self.formatting,
            decoration: plain_decoration(),
        }
    }
}

} // verus!
