//! Tokenizing and wrapping of strings with embedded color tags, such as
//! `"Hello <fg=blue>World</fg>"`.
use vstd::prelude::*;
use vstd::string::StringSliceAdditionalSpecFns;
use vstd::utf8::*;

use crate::color::{ascii_ci_eq, ascii_eq_ignore_case, color_from_text, parse_color_string, Color};
use crate::strings::utf8_text::{
    byte_before, first_byte_before, is_first_byte_before, lemma_after_ascii_is_boundary,
    lemma_ascii_byte_is_boundary, lemma_ends_are_boundaries, lemma_first_byte_exists,
    lemma_first_byte_unique, newline_byte, space_byte,
};

verus! {

broadcast use vstd::utf8::group_utf8_lib;

/// `/`
pub open spec fn slash_byte() -> u8 {
    0x2Fu8
}

/// `<`
pub open spec fn open_byte() -> u8 {
    0x3Cu8
}

/// `>`
pub open spec fn close_byte() -> u8 {
    0x3Eu8
}

/// Tokens from a tagged string.
#[derive(PartialEq, Debug)]
pub enum Token<'a> {
    Text(&'a str),
    Space,
    Newline,
    /// `<fg=COLOR>`: the color and the text of the color from the tag (a name or a hex code)
    FgStart(Color, &'a str),
    /// `<bg=COLOR>`: the color and the text of the color from the tag (a name or a hex code)
    BgStart(Color, &'a str),
    /// `</fg>`
    FgEnd,
    /// `</bg>`
    BgEnd,
}

/// What a [Token] holds, with its text as UTF-8 bytes.
pub enum TokenView {
    Text(Seq<u8>),
    Space,
    Newline,
    FgStart(Color, Seq<u8>),
    BgStart(Color, Seq<u8>),
    FgEnd,
    BgEnd,
}

impl<'a> View for Token<'a> {
    type V = TokenView;

    open spec fn view(&self) -> TokenView {
        match self {
            Token::Text(t) => TokenView::Text(t.spec_bytes()),
            Token::Space => TokenView::Space,
            Token::Newline => TokenView::Newline,
            Token::FgStart(c, t) => TokenView::FgStart(*c, t.spec_bytes()),
            Token::BgStart(c, t) => TokenView::BgStart(*c, t.spec_bytes()),
            Token::FgEnd => TokenView::FgEnd,
            Token::BgEnd => TokenView::BgEnd,
        }
    }
}

/// Why a tagged string could not be tokenized.
#[derive(Clone, Copy, Debug, PartialEq, Eq, Structural)]
pub enum TokenErrorKind {
    /// A character that starts a tag was not handled.
    UnhandledTag,
    /// A tag has no closing `>`.
    NoClosingBrace,
    /// A color tag names no known color.
    InvalidColor,
    /// A tag is neither `<fg=..>`, `<bg=..>`, `</fg>` nor `</bg>`.
    UnknownTag,
}

/// An error from reading a tagged string: its kind, the text it is about and
/// where in the string the token that failed starts.
#[derive(Clone, Copy, Debug, PartialEq, Eq)]
pub struct TokenError<'a> {
    pub kind: TokenErrorKind,
    /// For an unhandled tag or a tag without `>`, the rest of the string from
    /// the token on; for a tag with a bad color or an unknown tag, the text
    /// between the tag's brackets.
    pub text: &'a str,
    /// The column and line of the token that failed, counted as
    /// [token_position] counts them.
    pub position: [i32; 2],
}

/// What a [TokenError] holds, with its text as UTF-8 bytes.
pub struct TokenErrorView {
    pub kind: TokenErrorKind,
    pub text: Seq<u8>,
    pub position: (i32, i32),
}

impl<'a> View for TokenError<'a> {
    type V = TokenErrorView;

    open spec fn view(&self) -> TokenErrorView {
        TokenErrorView {
            kind: self.kind,
            text: self.text.spec_bytes(),
            position: (self.position[0], self.position[1]),
        }
    }
}

/// The bytes that end a run of plain text: space, `<`, newline and `/`.
pub open spec fn is_text_stop(x: u8) -> bool {
    x == space_byte() || x == open_byte() || x == newline_byte() || x == slash_byte()
}

pub open spec fn is_first_stop(b: Seq<u8>, i: int) -> bool {
    &&& 0 <= i < b.len()
    &&& is_text_stop(b[i])
    &&& forall|j: int| 0 <= j < i ==> !is_text_stop(b[j])
}

pub open spec fn has_stop(b: Seq<u8>) -> bool {
    exists|i: int| 0 <= i < b.len() && is_text_stop(b[i])
}

pub open spec fn first_stop(b: Seq<u8>) -> int {
    choose|i: int| is_first_stop(b, i)
}

/// `/fg`
pub open spec fn fg_end_tag() -> Seq<u8> {
    seq![0x2Fu8, 0x66, 0x67]
}

/// `/bg`
pub open spec fn bg_end_tag() -> Seq<u8> {
    seq![0x2Fu8, 0x62, 0x67]
}

/// `fg=`
pub open spec fn fg_start_tag() -> Seq<u8> {
    seq![0x66u8, 0x67, 0x3D]
}

/// `bg=`
pub open spec fn bg_start_tag() -> Seq<u8> {
    seq![0x62u8, 0x67, 0x3D]
}

/// The first three bytes of a tag (or all of it when shorter), which decide its kind.
pub open spec fn tag_prefix_len(tag: Seq<u8>) -> int {
    if tag.len() < 3 {
        tag.len() as int
    } else {
        3
    }
}

/// The token that the text between `<` and `>` stands for. The kind is decided
/// by the first three bytes, compared without case.
pub open spec fn tag_token(tag: Seq<u8>) -> Result<TokenView, TokenErrorKind> {
    let prefix = tag.subrange(0, tag_prefix_len(tag));
    if ascii_ci_eq(prefix, fg_end_tag()) {
        Ok(TokenView::FgEnd)
    } else if ascii_ci_eq(prefix, bg_end_tag()) {
        Ok(TokenView::BgEnd)
    } else if ascii_ci_eq(prefix, fg_start_tag()) {
        let name = tag.subrange(3, tag.len() as int);
        match color_from_text(name) {
            Some(c) => Ok(TokenView::FgStart(c, name)),
            None => Err(TokenErrorKind::InvalidColor),
        }
    } else if ascii_ci_eq(prefix, bg_start_tag()) {
        let name = tag.subrange(3, tag.len() as int);
        match color_from_text(name) {
            Some(c) => Ok(TokenView::BgStart(c, name)),
            None => Err(TokenErrorKind::InvalidColor),
        }
    } else {
        Err(TokenErrorKind::UnknownTag)
    }
}

/// The next token of the UTF-8 bytes `b` and how many bytes it consumes;
/// `None` when `b` is empty.
///
/// A newline or a space is a token of its own; `/<` escapes `<`; a lone `/` is
/// text; other text runs to the next space, `<`, newline or `/`; a tag runs from
/// `<` to the first `>`. A tag without `>` is an error that consumes nothing.
pub open spec fn token_step(b: Seq<u8>) -> Option<(Result<TokenView, TokenErrorKind>, int)> {
    if b.len() == 0 {
        None
    } else if b[0] == newline_byte() {
        Some((Ok(TokenView::Newline), 1))
    } else if b[0] == space_byte() {
        Some((Ok(TokenView::Space), 1))
    } else if b[0] == slash_byte() && b.len() >= 2 && b[1] == open_byte() {
        Some((Ok(TokenView::Text(b.subrange(1, 2))), 2))
    } else if b[0] == slash_byte() {
        Some((Ok(TokenView::Text(b.subrange(0, 1))), 1))
    } else if b[0] != open_byte() {
        if has_stop(b) {
            let k = first_stop(b);
            if k == 0 {
                Some((Err(TokenErrorKind::UnhandledTag), 0))
            } else {
                Some((Ok(TokenView::Text(b.subrange(0, k))), k))
            }
        } else {
            Some((Ok(TokenView::Text(b)), b.len() as int))
        }
    } else if !byte_before(b, close_byte(), b.len() as int) {
        Some((Err(TokenErrorKind::NoClosingBrace), 0))
    } else {
        let e = first_byte_before(b, close_byte(), b.len() as int);
        Some((tag_token(b.subrange(1, e)), e + 1))
    }
}

/// The inputs on which taking the next token does not panic: the first three
/// bytes of a tag must end on a char boundary.
pub open spec fn token_ok(b: Seq<u8>) -> bool {
    (b.len() > 0 && b[0] == open_byte() && byte_before(b, close_byte(), b.len() as int)) ==> {
        let e = first_byte_before(b, close_byte(), b.len() as int);
        let tag = b.subrange(1, e);
        is_char_boundary(tag, tag_prefix_len(tag))
    }
}

pub open spec fn token_result_view(r: Result<Token, TokenError>) -> Result<TokenView, TokenErrorKind> {
    match r {
        Ok(t) => Ok(t@),
        Err(e) => Err(e.kind),
    }
}

/// The text that an error in reading the next token of `b` is about: for a
/// tag that is closed, the text between its brackets; otherwise all of `b`.
pub open spec fn token_error_text(b: Seq<u8>) -> Seq<u8> {
    if b.len() > 0 && b[0] == open_byte() && byte_before(b, close_byte(), b.len() as int) {
        b.subrange(1, first_byte_before(b, close_byte(), b.len() as int))
    } else {
        b
    }
}

/// The column and line after reading the next token of `b` from `pos`. A
/// newline moves to column 0 of the next line; a space moves one column
/// right; text moves right by the bytes it takes, unless it runs to the end of
/// the string; a color tag moves right by its color text and five more; an
/// end tag moves five columns right. An error moves nothing. The sums wrap
/// around at the ends of `i32`.
pub open spec fn token_position(pos: (i32, i32), b: Seq<u8>) -> (i32, i32) {
    match token_step(b) {
        Some((Ok(TokenView::Newline), _)) => (0i32, pos.1.wrapping_add(1i32)),
        Some((Ok(TokenView::Space), _)) => (pos.0.wrapping_add(1i32), pos.1),
        Some((Ok(TokenView::Text(_)), k)) => if has_stop(b) {
            (pos.0.wrapping_add(k as i32), pos.1)
        } else {
            pos
        },
        Some((Ok(TokenView::FgStart(_, name)), _)) => (
            pos.0.wrapping_add(5i32.wrapping_add(name.len() as i32)),
            pos.1,
        ),
        Some((Ok(TokenView::BgStart(_, name)), _)) => (
            pos.0.wrapping_add(5i32.wrapping_add(name.len() as i32)),
            pos.1,
        ),
        Some((Ok(TokenView::FgEnd), _)) => (pos.0.wrapping_add(5i32), pos.1),
        Some((Ok(TokenView::BgEnd), _)) => (pos.0.wrapping_add(5i32), pos.1),
        _ => pos,
    }
}

/// An iterator-like reader over the tokens in a tagged string.
pub struct TokenIterator<'a> {
    remaining: &'a str,
    /// Column and line of the next token, for error reports.
    col: i32,
    line: i32,
}

/// Split off the first byte of `s`, which must be ASCII.
pub(crate) fn split_ascii_head<'a>(s: &'a str) -> (r: (&'a str, &'a str))
    requires
        s.spec_bytes().len() > 0,
        s.spec_bytes()[0] <= 0x7f,
    ensures
        r.0.spec_bytes() == s.spec_bytes().subrange(0, 1),
        r.1.spec_bytes() == s.spec_bytes().subrange(1, s.spec_bytes().len() as int),
{
    proof {
        lemma_after_ascii_is_boundary(s);
    }
    s.split_at(1)
}

/// Split `s` before the ASCII byte at `i`.
pub(crate) fn split_before_ascii<'a>(s: &'a str, i: usize) -> (r: (&'a str, &'a str))
    requires
        i < s.spec_bytes().len(),
        s.spec_bytes()[i as int] <= 0x7f,
    ensures
        r.0.spec_bytes() == s.spec_bytes().subrange(0, i as int),
        r.1.spec_bytes() == s.spec_bytes().subrange(i as int, s.spec_bytes().len() as int),
{
    proof {
        lemma_ascii_byte_is_boundary(s, i as int);
    }
    s.split_at(i)
}

impl<'a> TokenIterator<'a> {
    pub fn new(input: &'a str) -> (r: Self)
        ensures
            r.remaining() == input,
            r.position() == (0i32, 0i32),
    {
        Self { remaining: input, col: 0, line: 0 }
    }

    /// The text that is left to tokenize.
    pub closed spec fn remaining(&self) -> &'a str {
        self.remaining
    }

    /// The column and line of the next token, as [token_position] counts them.
    pub closed spec fn position(&self) -> (i32, i32) {
        (self.col, self.line)
    }

    /// An error of the given kind about the next token.
    fn error(&self, kind: TokenErrorKind, text: &'a str) -> (r: TokenError<'a>)
        ensures
            r.kind == kind,
            r.text == text,
            r@.position == self.position(),
    {
        TokenError { kind, text, position: [self.col, self.line] }
    }

    /// Whether the next token can be read without panicking, as [token_ok]
    /// describes: a tag's first three bytes must end on a char boundary.
    pub fn can_read_next(&self) -> (r: bool)
        ensures
            r == token_ok(self.remaining().spec_bytes()),
    {
        let rem = self.remaining;
        let ghost b = rem.spec_bytes();
        let bytes = rem.as_bytes();
        let n = bytes.len();
        if n == 0 || bytes[0] != 0x3C {
            return true;
        }
        let mut e: usize = 0;
        while e < n && bytes[e] != 0x3E
            invariant
                bytes@ == b,
                n == b.len(),
                0 <= e <= n,
                forall|j: int| 0 <= j < e ==> b[j] != close_byte(),
            decreases n - e,
        {
            e = e + 1;
        }
        if e == n {
            assert(!byte_before(b, close_byte(), n as int));
            return true;
        }
        proof {
            assert(is_first_byte_before(b, close_byte(), e as int, n as int));
            lemma_first_byte_exists(b, close_byte(), n as int);
            lemma_first_byte_unique(
                b,
                close_byte(),
                e as int,
                first_byte_before(b, close_byte(), n as int),
                n as int,
            );
        }
        let (_, after_open) = split_ascii_head(rem);
        let (tag, _) = split_before_ascii(after_open, e - 1);
        proof {
            assert(tag.spec_bytes() =~= b.subrange(1, e as int));
        }
        let pl = if tag.as_bytes().len() < 3 {
            tag.as_bytes().len()
        } else {
            3
        };
        tag.is_char_boundary(pl)
    }

    /// The number of bytes that are left to tokenize.
    pub fn remaining_bytes(&self) -> (r: usize)
        ensures
            r == self.remaining().spec_bytes().len(),
    {
        self.remaining.as_bytes().len()
    }

    /// The next token, or `None` once the string is used up. An error for a tag
    /// without a closing `>` leaves the reader where it was; an error reports
    /// the text it is about and the position of the token.
    pub fn next(&mut self) -> (r: Option<Result<Token<'a>, TokenError<'a>>>)
        requires
            token_ok(old(self).remaining().spec_bytes()),
        ensures
            ({
                let b = old(self).remaining().spec_bytes();
                match token_step(b) {
                    None => r is None && final(self).remaining() == old(self).remaining(),
                    Some((res, k)) => {
                        &&& r is Some
                        &&& token_result_view(r->0) == res
                        &&& 0 <= k <= b.len()
                        &&& final(self).remaining().spec_bytes() == b.subrange(k, b.len() as int)
                    },
                }
            }),
            final(self).position() == token_position(
                old(self).position(),
                old(self).remaining().spec_bytes(),
            ),
            r matches Some(Err(e)) ==> e@ == (TokenErrorView {
                kind: e.kind,
                text: token_error_text(old(self).remaining().spec_bytes()),
                position: old(self).position(),
            }),
    {
        let rem = self.remaining;
        let ghost b = rem.spec_bytes();
        let bytes = rem.as_bytes();
        let n = bytes.len();
        if n == 0 {
            return None;
        }
        if bytes[0] == 0x0A {
            let (_, r) = split_ascii_head(rem);
            self.remaining = r;
            self.line = self.line.wrapping_add(1);
            self.col = 0;
            return Some(Ok(Token::Newline));
        }
        if bytes[0] == 0x20 {
            let (_, r) = split_ascii_head(rem);
            self.remaining = r;
            self.col = self.col.wrapping_add(1);
            return Some(Ok(Token::Space));
        }
        // Escape opening bracket
        if bytes[0] == 0x2F && n >= 2 && bytes[1] == 0x3C {
            let (_, r1) = split_ascii_head(rem);
            let (lt, r2) = split_ascii_head(r1);
            proof {
                assert(lt.spec_bytes() =~= b.subrange(1, 2));
                assert(r2.spec_bytes() =~= b.subrange(2, n as int));
                assert(is_text_stop(b[0]));
            }
            self.remaining = r2;
            self.col = self.col.wrapping_add(2);
            return Some(Ok(Token::Text(lt)));
        }
        if bytes[0] == 0x2F {
            let (sl, r) = split_ascii_head(rem);
            proof {
                assert(is_text_stop(b[0]));
            }
            self.remaining = r;
            self.col = self.col.wrapping_add(1);
            return Some(Ok(Token::Text(sl)));
        }
        // Not a tag
        if bytes[0] != 0x3C {
            let mut i: usize = 0;
            while i < n
                invariant
                    bytes@ == b,
                    b == rem.spec_bytes(),
                    rem == old(self).remaining(),
                    self.position() == old(self).position(),
                    n == b.len(),
                    n > 0,
                    b[0] != newline_byte(),
                    b[0] != space_byte(),
                    b[0] != slash_byte(),
                    b[0] != open_byte(),
                    0 <= i <= n,
                    forall|j: int| 0 <= j < i ==> !is_text_stop(b[j]),
                decreases n - i,
            {
                let x = bytes[i];
                if x == 0x20 || x == 0x3C || x == 0x0A || x == 0x2F {
                    proof {
                        assert(is_first_stop(b, i as int));
                        assert(has_stop(b));
                        let f = first_stop(b);
                        assert(is_first_stop(b, f));
                        if f < i {
                            assert(!is_text_stop(b[f]));
                        }
                        if i < f {
                            assert(!is_text_stop(b[i as int]));
                        }
                    }
                    if i == 0 {
                        // Every stop byte is handled above.
                        return Some(Err(self.error(TokenErrorKind::UnhandledTag, rem)));
                    }
                    let (text, r) = split_before_ascii(rem, i);
                    self.remaining = r;
                    self.col = self.col.wrapping_add(i as i32);
                    return Some(Ok(Token::Text(text)));
                }
                i = i + 1;
            }
            assert(!has_stop(b));
            proof {
                lemma_ends_are_boundaries(rem);
            }
            let (_, empty) = rem.split_at(n);
            proof {
                assert(empty.spec_bytes() =~= b.subrange(n as int, n as int));
            }
            self.remaining = empty;
            return Some(Ok(Token::Text(rem)));
        }
        // Tags
        let mut e: usize = 0;
        while e < n && bytes[e] != 0x3E
            invariant
                bytes@ == b,
                n == b.len(),
                0 <= e <= n,
                forall|j: int| 0 <= j < e ==> b[j] != close_byte(),
            decreases n - e,
        {
            e = e + 1;
        }
        if e == n {
            assert(!byte_before(b, close_byte(), n as int));
            return Some(Err(self.error(TokenErrorKind::NoClosingBrace, rem)));
        }
        proof {
            assert(is_first_byte_before(b, close_byte(), e as int, n as int));
            lemma_first_byte_exists(b, close_byte(), n as int);
            lemma_first_byte_unique(
                b,
                close_byte(),
                e as int,
                first_byte_before(b, close_byte(), n as int),
                n as int,
            );
        }
        let (_, after_open) = split_ascii_head(rem);
        let (tag, close_rest) = split_before_ascii(after_open, e - 1);
        let (_, rest) = split_ascii_head(close_rest);
        proof {
            assert(tag.spec_bytes() =~= b.subrange(1, e as int));
            assert(rest.spec_bytes() =~= b.subrange(e + 1, n as int));
        }
        self.remaining = rest;
        let tag_bytes = tag.as_bytes();
        let pl = if tag_bytes.len() < 3 {
            tag_bytes.len()
        } else {
            3
        };
        let (prefix, name) = tag.split_at(pl);
        let pb = prefix.as_bytes();
        if ascii_eq_ignore_case(pb, &[0x2Fu8, 0x66, 0x67]) {
            self.col = self.col.wrapping_add(5);
            return Some(Ok(Token::FgEnd));
        }
        if ascii_eq_ignore_case(pb, &[0x2Fu8, 0x62, 0x67]) {
            self.col = self.col.wrapping_add(5);
            return Some(Ok(Token::BgEnd));
        }
        let step = 5i32.wrapping_add(name.as_bytes().len() as i32);
        if ascii_eq_ignore_case(pb, &[0x66u8, 0x67, 0x3D]) {
            return match parse_color_string(name.as_bytes()) {
                Some(col) => {
                    self.col = self.col.wrapping_add(step);
                    Some(Ok(Token::FgStart(col, name)))
                },
                None => Some(Err(self.error(TokenErrorKind::InvalidColor, tag))),
            };
        }
        if ascii_eq_ignore_case(pb, &[0x62u8, 0x67, 0x3D]) {
            return match parse_color_string(name.as_bytes()) {
                Some(col) => {
                    self.col = self.col.wrapping_add(step);
                    Some(Ok(Token::BgStart(col, name)))
                },
                None => Some(Err(self.error(TokenErrorKind::InvalidColor, tag))),
            };
        }
        Some(Err(self.error(TokenErrorKind::UnknownTag, tag)))
    }
}

} // verus!

verus! {

/// The number of bytes of the UTF-8 sequence that a byte starts (1 for ASCII).
pub open spec fn lead_width(x: u8) -> int {
    if x < 0x80 {
        1
    } else if x < 0xE0 {
        2
    } else if x < 0xF0 {
        3
    } else {
        4
    }
}

/// The width of the first character of `t`, at most its length.
pub open spec fn first_char_width(t: Seq<u8>) -> int {
    if lead_width(t[0]) <= t.len() {
        lead_width(t[0])
    } else {
        t.len() as int
    }
}

/// The number of characters in the UTF-8 bytes `t`.
pub open spec fn utf8_char_count(t: Seq<u8>) -> nat
    decreases t.len(),
{
    if t.len() == 0 {
        0
    } else {
        1 + utf8_char_count(t.subrange(first_char_width(t), t.len() as int))
    }
}

/// Fitting the text `t` into `avail` more characters: `None` when all of it
/// fits, otherwise the number of bytes of the characters that fit.
pub open spec fn text_fit(t: Seq<u8>, avail: int) -> Option<int>
    decreases t.len(),
{
    if t.len() == 0 {
        None
    } else if avail <= 0 {
        Some(0)
    } else {
        match text_fit(t.subrange(first_char_width(t), t.len() as int), avail - 1) {
            None => None,
            Some(k) => Some(first_char_width(t) + k),
        }
    }
}

/// Where scanning a tagged string for its first wrapped line ends up.
pub enum ScanResult {
    /// The line ends after `bytes` bytes of the input and holds `chars`
    /// characters, the last `trailing` of them spaces.
    Done { bytes: int, chars: int, trailing: int },
    /// A token could not be read.
    Failed(TokenErrorView),
    /// The scan would take the prefix of a tag apart inside a character.
    Stuck,
}

/// Scan the tokens of `b` for the first wrapped line, from a line so far of
/// `bytes` bytes and `chars` characters, the last `trailing` of them spaces,
/// with the reader at column and line `pos`.
///
/// Each token adds the bytes it takes up in `b`. Text that fits is added;
/// text that does not fit ends the line, and with word wrap it is moved to the
/// next line unless the line is still empty, else the characters that fit end
/// the line; a space that would fill the line ends it; a newline ends it and
/// belongs to it; tags add no characters.
pub open spec fn tagged_scan(
    b: Seq<u8>,
    bytes: int,
    chars: int,
    trailing: int,
    pos: (i32, i32),
    max_len: int,
    word_wrap: bool,
) -> ScanResult
    decreases b.len(),
{
    if !token_ok(b) {
        ScanResult::Stuck
    } else {
        match token_step(b) {
            None => ScanResult::Done { bytes, chars, trailing },
            Some((Err(e), _)) => ScanResult::Failed(
                TokenErrorView { kind: e, text: token_error_text(b), position: pos },
            ),
            Some((Ok(tok), k)) => {
                if !(0 < k <= b.len()) {
                    ScanResult::Done { bytes, chars, trailing }
                } else {
                    let rest = b.subrange(k, b.len() as int);
                    let next = token_position(pos, b);
                    match tok {
                        TokenView::Text(t) => match text_fit(t, max_len - chars) {
                            None => tagged_scan(
                                rest,
                                bytes + k,
                                chars + utf8_char_count(t),
                                0,
                                next,
                                max_len,
                                word_wrap,
                            ),
                            Some(fit) => if chars == 0 || !word_wrap {
                                ScanResult::Done {
                                    bytes: bytes + fit,
                                    chars: max_len,
                                    trailing: if fit > 0 {
                                        0
                                    } else {
                                        trailing
                                    },
                                }
                            } else {
                                ScanResult::Done { bytes, chars, trailing }
                            },
                        },
                        TokenView::Space => if chars + 1 >= max_len {
                            ScanResult::Done { bytes, chars, trailing }
                        } else {
                            tagged_scan(
                                rest,
                                bytes + k,
                                chars + 1,
                                trailing + 1,
                                next,
                                max_len,
                                word_wrap,
                            )
                        },
                        TokenView::Newline => ScanResult::Done { bytes: bytes + k, chars, trailing },
                        _ => tagged_scan(rest, bytes + k, chars, trailing, next, max_len, word_wrap),
                    }
                }
            },
        }
    }
}

/// The characters of valid UTF-8 bytes.
pub open spec fn chars_of(b: Seq<u8>) -> Seq<char> {
    decode_utf8(b)
}

/// The string is empty or holds only whitespace.
pub open spec fn blank(s: Seq<char>) -> bool {
    crate::strings::whitespace::trimmed_end_len(s) == 0
}

/// The inputs on which [wrap_tagged_string] returns without panicking: a blank
/// string, or one whose scan neither takes a tag prefix apart nor ends inside
/// a character.
#[verifier::opaque]
pub open spec fn tagged_wrap_ok(b: Seq<u8>, max_len: int, word_wrap: bool) -> bool {
    blank(chars_of(b)) || match tagged_scan(b, 0, 0, 0, (0i32, 0i32), max_len, word_wrap) {
        ScanResult::Done { bytes, .. } => is_char_boundary(b, bytes),
        ScanResult::Failed(_) => true,
        ScanResult::Stuck => false,
    }
}

/// The result of [wrap_tagged_string] on the UTF-8 bytes `b`: the wrapped line,
/// its character count without tags and trailing spaces, and the remaining text.
#[verifier::opaque]
pub open spec fn tagged_wrap(b: Seq<u8>, max_len: int, word_wrap: bool) -> Result<
    (Seq<char>, int, Seq<char>),
    TokenErrorView,
> {
    if blank(chars_of(b)) {
        Ok((Seq::empty(), 0, Seq::empty()))
    } else {
        match tagged_scan(b, 0, 0, 0, (0i32, 0i32), max_len, word_wrap) {
            ScanResult::Done { bytes, chars, trailing } => Ok(
                (
                    crate::strings::whitespace::trim_end_seq(chars_of(b.subrange(0, bytes))),
                    chars - trailing,
                    crate::strings::whitespace::trim_start_seq(
                        chars_of(b.subrange(bytes, b.len() as int)),
                    ),
                ),
            ),
            ScanResult::Failed(e) => Err(e),
            ScanResult::Stuck => Err(
                TokenErrorView {
                    kind: TokenErrorKind::UnhandledTag,
                    text: b,
                    position: (0i32, 0i32),
                },
            ),
        }
    }
}

} // verus!

verus! {

/// The bytes that the scan of [wrap_tagged_string] counts for a token.
pub open spec fn token_nominal_bytes(t: TokenView) -> int {
    match t {
        TokenView::Text(s) => s.len() as int,
        TokenView::Space => 1,
        TokenView::Newline => 1,
        TokenView::FgStart(_, name) => 5 + name.len() as int,
        TokenView::BgStart(_, name) => 5 + name.len() as int,
        TokenView::FgEnd => 5,
        TokenView::BgEnd => 5,
    }
}

pub proof fn lemma_first_stop_exists(b: Seq<u8>, m: int)
    requires
        0 <= m <= b.len(),
        exists|i: int| 0 <= i < m && is_text_stop(b[i]),
    ensures
        is_first_stop(b, first_stop(b)),
        first_stop(b) < m,
    decreases m,
{
    if exists|i: int| 0 <= i < m - 1 && is_text_stop(b[i]) {
        lemma_first_stop_exists(b, m - 1);
    } else {
        assert(is_first_stop(b, m - 1));
        let f = first_stop(b);
        if f < m - 1 {
            assert(!is_text_stop(b[f]));
        }
        if f > m - 1 {
            assert(!is_text_stop(b[m - 1]));
        }
    }
}

/// A token read successfully consumes at least one byte, and the scan counts
/// no more bytes for it than it consumes.
pub proof fn lemma_token_step_progress(b: Seq<u8>)
    ensures
        token_step(b) matches Some((Ok(tok), k)) ==> 0 < k <= b.len() && token_nominal_bytes(tok)
            <= k && token_nominal_bytes(tok) >= 0,
{
    if b.len() > 0 && b[0] != newline_byte() && b[0] != space_byte() && b[0] != slash_byte() && b[0]
        != open_byte() && has_stop(b) {
        lemma_first_stop_exists(b, b.len() as int);
    }
    if b.len() > 0 && b[0] == open_byte() && byte_before(b, close_byte(), b.len() as int) {
        lemma_first_byte_exists(b, close_byte(), b.len() as int);
        let e = first_byte_before(b, close_byte(), b.len() as int);
        assert(e != 0);
        let tag = b.subrange(1, e);
        let prefix = tag.subrange(0, tag_prefix_len(tag));
        if ascii_ci_eq(prefix, fg_end_tag()) || ascii_ci_eq(prefix, bg_end_tag()) || ascii_ci_eq(
            prefix,
            fg_start_tag(),
        ) || ascii_ci_eq(prefix, bg_start_tag()) {
            assert(prefix.len() == 3);
            assert(tag.len() >= 3);
        }
    }
}

pub proof fn lemma_text_fit_bound(t: Seq<u8>, avail: int)
    ensures
        text_fit(t, avail) matches Some(f) ==> 0 <= f <= t.len(),
    decreases t.len(),
{
    if t.len() > 0 && avail > 0 {
        lemma_text_fit_bound(t.subrange(first_char_width(t), t.len() as int), avail - 1);
    }
}

/// The width of the character that starts with `x`, at most `left`.
fn char_width(x: u8, left: usize) -> (w: usize)
    requires
        left > 0,
    ensures
        w as int == if lead_width(x) <= left {
            lead_width(x)
        } else {
            left as int
        },
        0 < w <= left,
{
    let w: usize = if x < 0x80 {
        1
    } else if x < 0xE0 {
        2
    } else if x < 0xF0 {
        3
    } else {
        4
    };
    if w <= left {
        w
    } else {
        left
    }
}

/// Returns the wrapped string, its character count (minus tags), and the
/// remaining string.
///
/// A blank input gives three empty results. Otherwise the line is scanned as
/// [tagged_scan] describes; the wrapped line is the scanned part without
/// trailing whitespace and the remaining string is the rest without leading
/// whitespace. `None` where wrapping the input panics.
#[verifier::rlimit(60)]
pub fn try_wrap_tagged_string<'a>(input: &'a str, max_len: usize, word_wrap: bool) -> (r: Option<
    Result<(&'a str, usize, &'a str), TokenError<'a>>,
>)
    ensures
        r is None <==> !tagged_wrap_ok(input.spec_bytes(), max_len as int, word_wrap),
        r matches Some(res) ==> match (res, tagged_wrap(input.spec_bytes(), max_len as int, word_wrap)) {
            (Ok((w, c, rem)), Ok((sw, sc, srem))) => w@ == sw && c == sc && rem@ == srem,
            (Err(e), Err(se)) => e@ == se,
            _ => false,
        },
        r matches Some(Ok((w, c, rem))) ==> {
            &&& c <= max_len
            &&& w.spec_bytes().len() <= input.spec_bytes().len()
            &&& rem.spec_bytes().len() <= input.spec_bytes().len()
        },
{
    reveal(tagged_wrap_ok);
    reveal(tagged_wrap);
    let ghost b = input.spec_bytes();
    assert(chars_of(b) == input@);
    let trimmed = crate::strings::whitespace::trim_end(input);
    proof {
        crate::strings::whitespace::lemma_trimmed_end_len_bound(input@);
    }
    if trimmed.is_empty() {
        let empty = "";
        proof {
            reveal_strlit("");
            assert(empty@ =~= Seq::<char>::empty());
        }
        return Some(Ok((empty, 0, empty)));
    }
    let total = input.as_bytes().len();
    let ghost scan = tagged_scan(b, 0, 0, 0, (0i32, 0i32), max_len as int, word_wrap);
    let ghost n = b.len();
    let mut byte_count: usize = 0;
    let mut char_count: usize = 0;
    let mut trailing: usize = 0;
    let mut done = false;
    let mut iter = TokenIterator::new(input);
    let ghost mut consumed: int = 0;
    while !done
        invariant
            b == input.spec_bytes(),
            n == b.len(),
            n == total,
            !blank(chars_of(b)),
            scan == tagged_scan(b, 0, 0, 0, (0i32, 0i32), max_len as int, word_wrap),
            0 <= consumed <= n,
            iter.remaining().spec_bytes() == b.subrange(consumed, n as int),
            byte_count <= consumed,
            char_count <= max_len,
            trailing <= char_count,
            !done ==> tagged_scan(
                iter.remaining().spec_bytes(),
                byte_count as int,
                char_count as int,
                trailing as int,
                iter.position(),
                max_len as int,
                word_wrap,
            ) == scan,
            done ==> scan == (ScanResult::Done {
                bytes: byte_count as int,
                chars: char_count as int,
                trailing: trailing as int,
            }),
        decreases iter.remaining().spec_bytes().len() + (if done {
            0int
        } else {
            1int
        }),
    {
        let ghost rb = iter.remaining().spec_bytes();
        proof {
            lemma_token_step_progress(rb);
        }
        if !iter.can_read_next() {
            assert(tagged_scan(
                rb,
                byte_count as int,
                char_count as int,
                trailing as int,
                iter.position(),
                max_len as int,
                word_wrap,
            ) == ScanResult::Stuck);
            proof {
                reveal(tagged_wrap_ok);
            }
            return None;
        }
        let before = iter.remaining_bytes();
        let ghost pos = iter.position();
        match iter.next() {
            None => {
                done = true;
            },
            Some(Err(e)) => {
                assert(tagged_scan(
                    rb,
                    byte_count as int,
                    char_count as int,
                    trailing as int,
                    pos,
                    max_len as int,
                    word_wrap,
                ) == ScanResult::Failed(e@));
                proof {
                    reveal(tagged_wrap);
                    reveal(tagged_wrap_ok);
                }
                return Some(Err(e));
            },
            Some(Ok(token)) => {
                let ghost k = match token_step(rb) {
                    Some((_, k)) => k,
                    None => 0,
                };
                proof {
                    assert(iter.remaining().spec_bytes() =~= b.subrange(consumed + k, n as int));
                    consumed = consumed + k;
                }
                let step = before - iter.remaining_bytes();
                assert(step == k);
                match token {
                    Token::Text(text) => {
                        let ghost t = text.spec_bytes();
                        let tb = text.as_bytes();
                        let tl = tb.len();
                        let mut pos: usize = 0;
                        let mut chars: usize = char_count;
                        let mut overflow = false;
                        proof {
                            lemma_text_fit_bound(t, max_len - char_count);
                            assert(t.subrange(0, tl as int) =~= t);
                        }
                        while pos < tl && !overflow
                            invariant
                                tb@ == t,
                                tl == t.len(),
                                0 <= pos <= tl,
                                char_count <= chars <= max_len,
                                text_fit(t, max_len - char_count) == (if overflow {
                                    Some(pos as int)
                                } else {
                                    match text_fit(
                                        t.subrange(pos as int, tl as int),
                                        max_len - chars,
                                    ) {
                                        None => None,
                                        Some(f) => Some(pos + f),
                                    }
                                }),
                                !overflow ==> utf8_char_count(t) == (chars - char_count)
                                    + utf8_char_count(t.subrange(pos as int, tl as int)),
                                overflow ==> chars == max_len,
                            decreases tl - pos + (if overflow {
                                0int
                            } else {
                                1int
                            }),
                        {
                            let ghost rest = t.subrange(pos as int, tl as int);
                            if chars >= max_len {
                                overflow = true;
                            } else {
                                let w = char_width(tb[pos], tl - pos);
                                proof {
                                    assert(rest[0] == tb@[pos as int]);
                                    assert(first_char_width(rest) == w);
                                    assert(rest.subrange(w as int, rest.len() as int) =~= t.subrange(
                                        pos + w,
                                        tl as int,
                                    ));
                                }
                                pos = pos + w;
                                chars = chars + 1;
                            }
                        }
                        if overflow {
                            if char_count == 0 || !word_wrap {
                                char_count = chars;
                                byte_count = byte_count + pos;
                                if pos > 0 {
                                    trailing = 0;
                                }
                            }
                            done = true;
                        } else {
                            proof {
                                assert(t.subrange(pos as int, tl as int).len() == 0);
                            }
                            char_count = chars;
                            byte_count = byte_count + step;
                            trailing = 0;
                        }
                    },
                    Token::Space => {
                        if char_count >= max_len || char_count + 1 >= max_len {
                            done = true;
                        } else {
                            char_count = char_count + 1;
                            byte_count = byte_count + step;
                            trailing = trailing + 1;
                        }
                    },
                    Token::Newline => {
                        byte_count = byte_count + step;
                        done = true;
                    },
                    _ => {
                        byte_count = byte_count + step;
                    },
                }
            },
        }
    }
    if !input.is_char_boundary(byte_count) {
        return None;
    }
    char_count = char_count - trailing;
    let (head, tail) = input.split_at(byte_count);
    proof {
        assert(head.spec_bytes() =~= b.subrange(0, byte_count as int));
        assert(tail.spec_bytes() =~= b.subrange(byte_count as int, n as int));
    }
    let wrapped = crate::strings::whitespace::trim_end(head);
    let remaining = crate::strings::whitespace::trim_start(tail);
    proof {
        crate::strings::whitespace::lemma_trimmed_end_len_bound(head@);
        crate::strings::whitespace::lemma_leading_ws_len_bound(tail@);
        crate::strings::utf8_text::lemma_encode_take_skip_len(
            head@,
            crate::strings::whitespace::trimmed_end_len(head@) as int,
        );
        crate::strings::utf8_text::lemma_encode_take_skip_len(
            tail@,
            crate::strings::whitespace::leading_ws_len(tail@) as int,
        );
    }
    Some(Ok((wrapped, char_count, remaining)))
}


/// Returns the wrapped string, its character count (minus tags), and the
/// remaining string, as [try_wrap_tagged_string] gives them for an input on
/// which wrapping does not panic.
pub fn wrap_tagged_string<'a>(input: &'a str, max_len: usize, word_wrap: bool) -> (r: Result<
    (&'a str, usize, &'a str),
    TokenError<'a>,
>)
    requires
        tagged_wrap_ok(input.spec_bytes(), max_len as int, word_wrap),
    ensures
        match (r, tagged_wrap(input.spec_bytes(), max_len as int, word_wrap)) {
            (Ok((w, c, rem)), Ok((sw, sc, srem))) => w@ == sw && c == sc && rem@ == srem,
            (Err(e), Err(se)) => e@ == se,
            _ => false,
        },
        r matches Ok((w, c, rem)) ==> {
            &&& c <= max_len
            &&& w.spec_bytes().len() <= input.spec_bytes().len()
            &&& rem.spec_bytes().len() <= input.spec_bytes().len()
        },
{
    match try_wrap_tagged_string(input, max_len, word_wrap) {
        Some(r) => r,
        None => Err(TokenError { kind: TokenErrorKind::UnhandledTag, text: input, position: [0, 0] }),
    }
}
} // verus!

verus! {

/// The UTF-8 bytes of the remaining text after wrapping the first line of `b`.
pub open spec fn tagged_rest(b: Seq<u8>, max_len: int, word_wrap: bool) -> Seq<u8> {
    match tagged_wrap(b, max_len, word_wrap) {
        Ok((_, _, r)) => encode_utf8(r),
        Err(_) => Seq::empty(),
    }
}

/// Repeated wrapping of `b` never panics and, until it fails or the text is
/// used up, consumes text at every step.
pub open spec fn tagged_lines_ok(b: Seq<u8>, max_len: int, word_wrap: bool) -> bool
    decreases b.len(),
{
    let r = tagged_rest(b, max_len, word_wrap);
    &&& tagged_wrap_ok(b, max_len, word_wrap)
    &&& match tagged_wrap(b, max_len, word_wrap) {
        Err(_) => true,
        Ok(_) => if r.len() == 0 {
            true
        } else if r.len() < b.len() {
            tagged_lines_ok(r, max_len, word_wrap)
        } else {
            false
        },
    }
}

/// The number of lines that repeated wrapping of the non-empty text `b` produces,
/// or the first error.
pub open spec fn tagged_lines(b: Seq<u8>, max_len: int, word_wrap: bool) -> Result<
    nat,
    TokenErrorView,
>
    decreases b.len(),
{
    let r = tagged_rest(b, max_len, word_wrap);
    match tagged_wrap(b, max_len, word_wrap) {
        Err(e) => Err(e),
        Ok(_) => if r.len() == 0 {
            Ok(1)
        } else if r.len() < b.len() {
            match tagged_lines(r, max_len, word_wrap) {
                Ok(c) => Ok(c + 1),
                Err(e) => Err(e),
            }
        } else {
            Ok(1)
        },
    }
}

/// The number of lines a tagged string occupies when wrapped: 0 for an empty
/// string, otherwise the number of times [wrap_tagged_string] is applied until
/// no text remains.
pub fn wrap_tagged_line_count<'a>(input: &'a str, max_len: usize, word_wrap: bool) -> (r: Result<
    usize,
    TokenError<'a>,
>)
    requires
        input@.len() == 0 || tagged_lines_ok(input.spec_bytes(), max_len as int, word_wrap),
    ensures
        input@.len() == 0 ==> r == Ok::<usize, TokenError<'a>>(0),
        input@.len() > 0 ==> match (r, tagged_lines(input.spec_bytes(), max_len as int, word_wrap)) {
            (Ok(c), Ok(sc)) => c == sc,
            (Err(e), Err(se)) => e@ == se,
            _ => false,
        },
        r matches Ok(c) ==> c <= input.spec_bytes().len(),
{
    if input.is_empty() {
        return Ok(0);
    }
    let total = input.as_bytes().len();
    let (_, _, mut remaining) = match wrap_tagged_string(input, max_len, word_wrap) {
        Ok(res) => res,
        Err(e) => {
            return Err(e);
        },
    };
    let mut count: usize = 1;
    while !remaining.is_empty()
        invariant
            total == input.spec_bytes().len(),
            tagged_lines_ok(input.spec_bytes(), max_len as int, word_wrap),
            count + remaining.spec_bytes().len() <= total,
            1 <= count,
            remaining.spec_bytes().len() > 0 ==> tagged_lines_ok(
                remaining.spec_bytes(),
                max_len as int,
                word_wrap,
            ),
            tagged_lines(input.spec_bytes(), max_len as int, word_wrap) == (if remaining@.len()
                == 0 {
                Ok::<nat, TokenErrorView>(count as nat)
            } else {
                match tagged_lines(remaining.spec_bytes(), max_len as int, word_wrap) {
                    Ok(c) => Ok(c + count as nat),
                    Err(e) => Err(e),
                }
            }),
        decreases remaining.spec_bytes().len(),
    {
        let ghost prev = remaining.spec_bytes();
        match wrap_tagged_string(remaining, max_len, word_wrap) {
            Ok((_, _, rem)) => {
                remaining = rem;
            },
            Err(e) => {
                return Err(e);
            },
        }
        count = count + 1;
    }
    Ok(count)
}


/// The number of lines a tagged string occupies when wrapped, as
/// [wrap_tagged_line_count] counts them, or `None` where wrapping it panics or
/// would not end.
pub fn try_wrap_tagged_line_count<'a>(input: &'a str, max_len: usize, word_wrap: bool) -> (r: Option<
    Result<usize, TokenError<'a>>,
>)
    ensures
        input@.len() == 0 ==> r == Some(Ok::<usize, TokenError<'a>>(0)),
        input@.len() > 0 ==> (r is None <==> !tagged_lines_ok(
            input.spec_bytes(),
            max_len as int,
            word_wrap,
        )),
        input@.len() > 0 ==> (r matches Some(res) ==> match (
            res,
            tagged_lines(input.spec_bytes(), max_len as int, word_wrap),
        ) {
            (Ok(c), Ok(sc)) => c == sc,
            (Err(e), Err(se)) => e@ == se,
            _ => false,
        }),
        r matches Some(Ok(c)) ==> c <= input.spec_bytes().len(),
{
    if input.is_empty() {
        return Some(Ok(0));
    }
    let total = input.as_bytes().len();
    let mut remaining = input;
    let mut count: usize = 0;
    loop
        invariant
            total == input.spec_bytes().len(),
            input@.len() > 0,
            remaining@.len() > 0,
            count + remaining.spec_bytes().len() <= total,
            tagged_lines_ok(input.spec_bytes(), max_len as int, word_wrap) == tagged_lines_ok(
                remaining.spec_bytes(),
                max_len as int,
                word_wrap,
            ),
            tagged_lines(input.spec_bytes(), max_len as int, word_wrap) == match tagged_lines(
                remaining.spec_bytes(),
                max_len as int,
                word_wrap,
            ) {
                Ok(c) => Ok::<nat, TokenErrorView>(c + count as nat),
                Err(e) => Err(e),
            },
        decreases remaining.spec_bytes().len(),
    {
        let ghost prev = remaining.spec_bytes();
        match try_wrap_tagged_string(remaining, max_len, word_wrap) {
            None => {
                return None;
            },
            Some(Err(e)) => {
                return Some(Err(e));
            },
            Some(Ok((_, _, rem))) => {
                if rem.is_empty() {
                    return Some(Ok(count + 1));
                }
                if rem.as_bytes().len() >= remaining.as_bytes().len() {
                    return None;
                }
                remaining = rem;
                count = count + 1;
            },
        }
    }
}
} // verus!
