//! Utilities for customizing terminal strings.
use vstd::prelude::*;

use crate::color::Color;

verus! {

/// A string wrapper for customizing how strings are written to the terminal.
#[derive(Debug, Clone)]
pub struct TerminalString<T> {
    pub string: T,
    /// Prevent splitting words between lines. Defaults to true.
    pub word_wrap: bool,
    /// Parse tags in the string before writing. Defaults to true.
    pub parse_tags: bool,
    /// Set string colors to the terminal's clear color. Defaults to true, but
    /// will be overridden by [Self::fg_color] or [Self::bg_color] if they are set.
    pub clear_colors: bool,
    /// Write colors to the spaces in the string. Defaults to true.
    pub colored_spaces: bool,
    /// Set the foreground color for the string.
    /// Will override [Self::clear_colors] if set.
    /// This setting is ignored for tagged strings.
    pub fg_color: Option<Color>,
    /// Set the background color for the string.
    /// Will override [Self::clear_colors] if set.
    /// This setting is ignored for tagged strings.
    pub bg_color: Option<Color>,
}

/// A terminal string with the default settings.
pub open spec fn default_string<T>(string: T) -> TerminalString<T> {
    TerminalString {
        string,
        word_wrap: true,
        clear_colors: true,
        parse_tags: true,
        colored_spaces: true,
        fg_color: None,
        bg_color: None,
    }
}

impl<T> TerminalString<T> {
    /// The settings a terminal string has by default: word wrap, tag parsing,
    /// clear colors and colored spaces on, no colors of its own.
    pub open spec fn is_default_for(self, string: T) -> bool {
        &&& self.string == string
        &&& self.word_wrap
        &&& self.parse_tags
        &&& self.clear_colors
        &&& self.colored_spaces
        &&& self.fg_color is None
        &&& self.bg_color is None
    }

    /// A terminal string with the default settings.
    pub fn new(string: T) -> (r: Self)
        ensures
            r.is_default_for(string),
    {
        TerminalString {
            string,
            word_wrap: true,
            clear_colors: true,
            parse_tags: true,
            colored_spaces: true,
            fg_color: None,
            bg_color: None,
        }
    }
}

impl<T: Default> Default for TerminalString<T> {
    /// A terminal string of the default value of `T`, with the default
    /// settings.
    fn default() -> (r: Self)
        ensures
            r.word_wrap,
            r.parse_tags,
            r.clear_colors,
            r.colored_spaces,
            r.fg_color is None,
            r.bg_color is None,
            call_ensures(T::default, (), r.string),
    {
        TerminalString {
            string: T::default(),
            word_wrap: true,
            clear_colors: true,
            parse_tags: true,
            colored_spaces: true,
            fg_color: None,
            bg_color: None,
        }
    }
}

impl<'a> From<&'a str> for TerminalString<&'a str> {
    fn from(value: &'a str) -> (r: Self) {
        TerminalString::new(value)
    }
}

impl<'a> vstd::std_specs::convert::FromSpecImpl<&'a str> for TerminalString<&'a str> {
    open spec fn obeys_from_spec() -> bool {
        true
    }

    open spec fn from_spec(v: &'a str) -> Self {
        default_string(v)
    }
}

/// A trait for creating a [TerminalString].
pub trait TerminalStringBuilder<T>: Sized {
    /// Sets the foreground color for string tiles. Will override clear colors if set.
    fn fg(self, color: Color) -> (r: TerminalString<T>)
        ensures
            r.fg_color == Some(color),
    ;

    /// Sets the background color for string tiles. Will override clear colors if set.
    fn bg(self, color: Color) -> (r: TerminalString<T>)
        ensures
            r.bg_color == Some(color),
    ;

    /// Don't set the string tile colors to match the terminal's clear tile.
    fn dont_clear_colors(self) -> (r: TerminalString<T>)
        ensures
            !r.clear_colors,
    ;

    /// Disable parsing for embedded string tags before writing.
    fn dont_parse_tags(self) -> (r: TerminalString<T>)
        ensures
            !r.parse_tags,
    ;

    /// Disable word wrap, allowing words to be split between lines.
    fn dont_word_wrap(self) -> (r: TerminalString<T>)
        ensures
            !r.word_wrap,
    ;

    /// Prevent colors from being written to space characters.
    fn dont_color_spaces(self) -> (r: TerminalString<T>)
        ensures
            !r.colored_spaces,
    ;
}

impl<'a> TerminalStringBuilder<&'a str> for &'a str {
    fn fg(self, color: Color) -> (r: TerminalString<&'a str>)
        ensures
            r == (TerminalString { fg_color: Some(color), ..default_string(self) }),
    {
        let mut r = TerminalString::new(self);
        r.fg_color = Some(color);
        r
    }

    fn bg(self, color: Color) -> (r: TerminalString<&'a str>)
        ensures
            r == (TerminalString { bg_color: Some(color), ..default_string(self) }),
    {
        let mut r = TerminalString::new(self);
        r.bg_color = Some(color);
        r
    }

    fn dont_clear_colors(self) -> (r: TerminalString<&'a str>)
        ensures
            r == (TerminalString { clear_colors: false, ..default_string(self) }),
    {
        let mut r = TerminalString::new(self);
        r.clear_colors = false;
        r
    }

    fn dont_parse_tags(self) -> (r: TerminalString<&'a str>)
        ensures
            r == (TerminalString { parse_tags: false, ..default_string(self) }),
    {
        let mut r = TerminalString::new(self);
        r.parse_tags = false;
        r
    }

    fn dont_word_wrap(self) -> (r: TerminalString<&'a str>)
        ensures
            r == (TerminalString { word_wrap: false, ..default_string(self) }),
    {
        let mut r = TerminalString::new(self);
        r.word_wrap = false;
        r
    }

    fn dont_color_spaces(self) -> (r: TerminalString<&'a str>)
        ensures
            r == (TerminalString { colored_spaces: false, ..default_string(self) }),
    {
        let mut r = TerminalString::new(self);
        r.colored_spaces = false;
        r
    }
}

impl TerminalStringBuilder<String> for String {
    fn fg(self, color: Color) -> (r: TerminalString<String>)
        ensures
            r == (TerminalString { fg_color: Some(color), ..default_string(self) }),
    {
        let mut r = TerminalString::new(self);
        r.fg_color = Some(color);
        r
    }

    fn bg(self, color: Color) -> (r: TerminalString<String>)
        ensures
            r == (TerminalString { bg_color: Some(color), ..default_string(self) }),
    {
        let mut r = TerminalString::new(self);
        r.bg_color = Some(color);
        r
    }

    fn dont_clear_colors(self) -> (r: TerminalString<String>)
        ensures
            r == (TerminalString { clear_colors: false, ..default_string(self) }),
    {
        let mut r = TerminalString::new(self);
        r.clear_colors = false;
        r
    }

    fn dont_parse_tags(self) -> (r: TerminalString<String>)
        ensures
            r == (TerminalString { parse_tags: false, ..default_string(self) }),
    {
        let mut r = TerminalString::new(self);
        r.parse_tags = false;
        r
    }

    fn dont_word_wrap(self) -> (r: TerminalString<String>)
        ensures
            r == (TerminalString { word_wrap: false, ..default_string(self) }),
    {
        let mut r = TerminalString::new(self);
        r.word_wrap = false;
        r
    }

    fn dont_color_spaces(self) -> (r: TerminalString<String>)
        ensures
            r == (TerminalString { colored_spaces: false, ..default_string(self) }),
    {
        let mut r = TerminalString::new(self);
        r.colored_spaces = false;
        r
    }
}

impl<T> TerminalStringBuilder<T> for TerminalString<T> {
    fn fg(self, color: Color) -> (r: TerminalString<T>)
        ensures
            r == (TerminalString { fg_color: Some(color), ..self }),
    {
        let mut r = self;
        r.fg_color = Some(color);
        r
    }

    fn bg(self, color: Color) -> (r: TerminalString<T>)
        ensures
            r == (TerminalString { bg_color: Some(color), ..self }),
    {
        let mut r = self;
        r.bg_color = Some(color);
        r
    }

    fn dont_clear_colors(self) -> (r: TerminalString<T>)
        ensures
            r == (TerminalString { clear_colors: false, ..self }),
    {
        let mut r = self;
        r.clear_colors = false;
        r
    }

    fn dont_parse_tags(self) -> (r: TerminalString<T>)
        ensures
            r == (TerminalString { parse_tags: false, ..self }),
    {
        let mut r = self;
        r.parse_tags = false;
        r
    }

    fn dont_word_wrap(self) -> (r: TerminalString<T>)
        ensures
            r == (TerminalString { word_wrap: false, ..self }),
    {
        let mut r = self;
        r.word_wrap = false;
        r
    }

    fn dont_color_spaces(self) -> (r: TerminalString<T>)
        ensures
            r == (TerminalString { colored_spaces: false, ..self }),
    {
        let mut r = self;
        r.colored_spaces = false;
        r
    }
}

} // verus!
