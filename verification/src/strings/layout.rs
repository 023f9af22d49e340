//! Laying out a tagged string line by line: measuring each line from its
//! tokens and aligning it by a pivot.
use vstd::prelude::*;
use vstd::string::StringSliceAdditionalSpecFns;
use vstd::utf8::*;

use crate::color::Color;
use crate::pivot::Pivot;
use crate::tile::Tile;
use crate::strings::tagged_string::{
    lemma_token_step_progress, token_ok, token_step, Token, TokenIterator, TokenView,
};
use crate::strings::utf8_text::chars_vec;

verus! {

broadcast use vstd::utf8::group_utf8_lib;

/// The number of bytes of the UTF-8 encoding of `c`.
pub open spec fn char_utf8_len(c: char) -> int {
    encode_scalar(c as u32).len() as int
}

/// The number of bytes of the UTF-8 encoding of `c`, as `char::len_utf8` gives it.
fn utf8_len(c: char) -> (r: usize)
    ensures
        r == char_utf8_len(c),
{
    let v = c as u32;
    proof {
        char_is_scalar(c);
    }
    if v < 0x80 {
        1
    } else if v < 0x800 {
        2
    } else if v < 0x1_0000 {
        3
    } else {
        4
    }
}

/// Counting the characters `cs` of a text token into a line of `count`
/// characters ending `eol` bytes in: each character that still fits in
/// `max_width` adds one to the count and its UTF-8 length to the end. The flag
/// tells whether the line became full.
pub open spec fn measure_text(cs: Seq<char>, eol: int, count: int, max_width: int) -> (int, int, bool)
    decreases cs.len(),
{
    if cs.len() == 0 {
        (eol, count, false)
    } else if count >= max_width {
        (eol, count, true)
    } else {
        measure_text(cs.drop_first(), eol + char_utf8_len(cs[0]), count + 1, max_width)
    }
}

/// Measuring a line from the tokens of the UTF-8 bytes `b`, with `eol` bytes
/// and `count` characters so far: each token adds the bytes it takes up in
/// `b` to `eol`; text characters and spaces are counted as [measure_text] does
/// (text that does not all fit ends the line after the characters that fit),
/// a newline ends the line and belongs to it, tags add no characters, and the
/// line also ends at a token that cannot be read. `None` where reading a token
/// panics.
pub open spec fn measure_tokens(b: Seq<u8>, eol: int, count: int, max_width: int) -> Option<
    (int, int),
>
    decreases b.len(),
{
    if !token_ok(b) {
        None
    } else {
        match token_step(b) {
            None => Some((eol, count)),
            Some((Err(_), _)) => Some((eol, count)),
            Some((Ok(tok), k)) => if !(0 < k <= b.len()) {
                Some((eol, count))
            } else {
                let rest = b.subrange(k, b.len() as int);
                match tok {
                    TokenView::Text(t) => {
                        let m = measure_text(decode_utf8(t), eol, count, max_width);
                        if m.2 {
                            Some((m.0, m.1))
                        } else {
                            measure_tokens(rest, eol + k, m.1, max_width)
                        }
                    },
                    TokenView::Space => if count + 1 > max_width {
                        Some((eol, count))
                    } else {
                        measure_tokens(rest, eol + k, count + 1, max_width)
                    },
                    TokenView::Newline => Some((eol + k, count)),
                    _ => measure_tokens(rest, eol + k, count, max_width),
                }
            },
        }
    }
}

/// The end byte and character count of the line of `text` that starts at byte
/// `start`, as [measure_tokens] gives them.
pub open spec fn measured_line(text: Seq<u8>, start: int, max_width: int) -> Option<(int, int)> {
    measure_tokens(text.subrange(start, text.len() as int), start, 0, max_width)
}

proof fn lemma_measure_text_bounds(cs: Seq<char>, eol: int, count: int, max_width: int)
    ensures
        measure_text(cs, eol, count, max_width).0 - eol <= encode_utf8(cs).len(),
        measure_text(cs, eol, count, max_width).0 >= eol,
        measure_text(cs, eol, count, max_width).1 - count <= cs.len(),
        measure_text(cs, eol, count, max_width).1 >= count,
        measure_text(cs, eol, count, max_width).1 - count <= measure_text(cs, eol, count, max_width).0
            - eol,
    decreases cs.len(),
{
    if cs.len() > 0 && count < max_width {
        assert(char_utf8_len(cs[0]) >= 1);
        lemma_measure_text_bounds(cs.drop_first(), eol + char_utf8_len(cs[0]), count + 1, max_width);
    }
}

/// Count the characters of a text token into a line, as [measure_text] does.
fn measure_chars(chars: &Vec<char>, eol: usize, count: usize, max_width: usize) -> (r: (
    usize,
    usize,
    bool,
))
    requires
        eol + encode_utf8(chars@).len() <= usize::MAX,
        count <= eol,
    ensures
        (r.0 as int, r.1 as int, r.2) == measure_text(
            chars@,
            eol as int,
            count as int,
            max_width as int,
        ),
{
    proof {
        lemma_measure_text_bounds(chars@, eol as int, count as int, max_width as int);
        crate::terminal::put::lemma_char_count_bound(chars@);
        assert(chars@.skip(0) =~= chars@);
    }
    let ghost m = measure_text(chars@, eol as int, count as int, max_width as int);
    let mut e = eol;
    let mut c = count;
    let mut i: usize = 0;
    while i < chars.len()
        invariant
            i <= chars@.len(),
            eol <= e,
            count <= c,
            m == measure_text(chars@, eol as int, count as int, max_width as int),
            measure_text(chars@.skip(i as int), e as int, c as int, max_width as int) == m,
            m.0 <= eol + encode_utf8(chars@).len(),
            m.1 - count <= chars@.len(),
            eol + encode_utf8(chars@).len() <= usize::MAX,
            c <= count + i,
            count + chars@.len() <= usize::MAX,
        decreases chars@.len() - i,
    {
        proof {
            assert(chars@.skip(i as int).drop_first() =~= chars@.skip(i + 1));
            lemma_measure_text_bounds(
                chars@.skip(i + 1),
                e + char_utf8_len(chars@[i as int]),
                c + 1,
                max_width as int,
            );
        }
        if c >= max_width {
            return (e, c, true);
        }
        c = c + 1;
        e = e + utf8_len(chars[i]);
        i = i + 1;
    }
    proof {
        assert(chars@.skip(i as int) =~= Seq::<char>::empty());
    }
    (e, c, false)
}

/// Parse ahead to get the end byte and the character count of the wrapped
/// line of `text` that starts at byte `start`, or `None` where `start` is not
/// a char boundary of `text` or reading a token of the line panics.
pub fn try_measure_line(text: &str, start: usize, max_width: usize) -> (r: Option<(usize, usize)>)
    ensures
        r is None <==> !(start <= text.spec_bytes().len() && is_char_boundary(
            text.spec_bytes(),
            start as int,
        ) && measured_line(text.spec_bytes(), start as int, max_width as int) is Some),
        r matches Some((e, c)) ==> measured_line(text.spec_bytes(), start as int, max_width as int)
            == Some((e as int, c as int)),
{
    if !text.is_char_boundary(start) {
        return None;
    }
    let ghost whole = text.spec_bytes();
    let n = text.as_bytes().len();
    let (_, tail) = text.split_at(start);
    let mut iter = TokenIterator::new(tail);
    let mut eol: usize = start;
    let mut char_count: usize = 0;
    let ghost target = measured_line(whole, start as int, max_width as int);
    let mut done = false;
    while !done
        invariant
            whole == text.spec_bytes(),
            n == whole.len(),
            target == measured_line(whole, start as int, max_width as int),
            start <= eol,
            char_count <= eol - start,
            eol + iter.remaining().spec_bytes().len() <= n,
            !done ==> measure_tokens(
                iter.remaining().spec_bytes(),
                eol as int,
                char_count as int,
                max_width as int,
            ) == target,
            done ==> target == Some((eol as int, char_count as int)),
        decreases iter.remaining().spec_bytes().len() + if done {
            0int
        } else {
            1int
        },
    {
        let ghost rb = iter.remaining().spec_bytes();
        proof {
            lemma_token_step_progress(rb);
        }
        if !iter.can_read_next() {
            assert(measure_tokens(rb, eol as int, char_count as int, max_width as int) is None);
            return None;
        }
        let before = iter.remaining_bytes();
        match iter.next() {
            Some(Ok(token)) => {
                let step = before - iter.remaining_bytes();
                match token {
                    Token::Text(text) => {
                        let chars = chars_vec(text);
                        proof {
                            assert(decode_utf8(text.spec_bytes()) == text@);
                            lemma_measure_text_bounds(
                                text@,
                                eol as int,
                                char_count as int,
                                max_width as int,
                            );
                        }
                        let m = measure_chars(&chars, eol, char_count, max_width);
                        char_count = m.1;
                        if m.2 {
                            eol = m.0;
                            done = true;
                        } else {
                            eol = eol + step;
                        }
                    },
                    Token::Space => {
                        if char_count + 1 > max_width {
                            done = true;
                        } else {
                            char_count = char_count + 1;
                            eol = eol + step;
                        }
                    },
                    Token::Newline => {
                        eol = eol + step;
                        done = true;
                    },
                    _ => {
                        eol = eol + step;
                    },
                }
            },
            _ => {
                done = true;
            },
        }
    }
    Some((eol, char_count))
}

/// Parse ahead to get the end byte and the character count of the wrapped
/// line of `text` that starts at byte `start`.
pub fn measure_line(text: &str, start: usize, max_width: usize) -> (r: (usize, usize))
    requires
        start <= text.spec_bytes().len(),
        is_char_boundary(text.spec_bytes(), start as int),
        measured_line(text.spec_bytes(), start as int, max_width as int) is Some,
    ensures
        measured_line(text.spec_bytes(), start as int, max_width as int) == Some(
            (r.0 as int, r.1 as int),
        ),
{
    match try_measure_line(text, start, max_width) {
        Some(r) => r,
        None => (start, 0),
    }
}

/// How far a line of `line_width` characters moves left of its start for a
/// pivot: none on the left, half of it (rounded down) in the center, all of it
/// on the right.
pub open spec fn align_offset_spec(pivot: Pivot, line_width: int) -> int {
    if pivot.x_halves() == 0 {
        0
    } else if pivot.x_halves() == 1 {
        -(line_width / 2)
    } else {
        -line_width
    }
}

/// How far a line of `line_width` characters moves horizontally for a pivot.
pub fn align_offset(pivot: Pivot, line_width: usize) -> (r: i32)
    requires
        line_width <= i32::MAX,
    ensures
        r == align_offset_spec(pivot, line_width as int),
{
    let line_width = line_width as i32;
    match pivot {
        Pivot::TopLeft | Pivot::LeftCenter | Pivot::BottomLeft => 0,
        Pivot::BottomCenter | Pivot::Center | Pivot::TopCenter => -(line_width / 2),
        Pivot::TopRight | Pivot::RightCenter | Pivot::BottomRight => -line_width,
    }
}

/// A char boundary of valid UTF-8 bytes is one of each of their prefixes that
/// ends at a char boundary past it.
proof fn lemma_prefix_boundary(b: Seq<u8>, e: int, i: int)
    requires
        valid_utf8(b),
        0 <= i <= e <= b.len(),
        is_char_boundary(b, e),
        is_char_boundary(b, i),
    ensures
        is_char_boundary(b.subrange(0, e), i),
{
    let p = b.subrange(0, e);
    valid_utf8_split(b, e);
    is_char_boundary_start_end_of_seq(p);
    if i < e {
        is_char_boundary_iff_not_is_continuation_byte(p, i);
        is_char_boundary_iff_not_is_continuation_byte(b, i);
        assert(p[i] == b[i]);
    }
}

/// A character laid out on a grid: its tile and its position.
#[derive(Clone, Copy, Debug)]
pub struct Cell {
    pub tile: Tile,
    pub pos: [i32; 2],
}

/// Where laying out stands: the position of the next character, the start of
/// the next line in the text, the colors, and the rest of the current line.
pub struct LayoutState {
    pub x: int,
    pub y: int,
    pub line_start: int,
    pub fg: Color,
    pub bg: Color,
    pub current: Option<Seq<u8>>,
}

/// What laying out is given: the text, the column lines start from, the
/// width lines wrap at, the pivot that aligns them and the default colors.
pub struct LayoutSetup {
    pub text: Seq<u8>,
    pub start_x: int,
    pub max_width: int,
    pub pivot: Pivot,
    pub fg: Color,
    pub bg: Color,
}

/// The measure of a layout state that each step lowers.
pub open spec fn current_len(s: LayoutState) -> int {
    match s.current {
        Some(r) => r.len() + 1int,
        None => 0,
    }
}

/// A value that an `i32` holds.
pub open spec fn fits_i32(v: int) -> bool {
    i32::MIN <= v <= i32::MAX
}

/// The next laid out character and the state after it, or `None` for the
/// character where the text is used up; `None` overall where laying out
/// panics (a token that cannot be read, a position past the range of `i32`)
/// or would not end (a line that takes no text).
///
/// The next token of the current line is taken: the first character of a
/// text token or a space is laid out at the position, which moves right; a
/// newline ends the line and moves down a row; a color tag sets a color (an
/// end tag the default one) and ends the line. Without a token the line ends
/// and the position moves down a row. When a line ends without a newline, the
/// next one is measured from the text with [measured_line] and starts at the
/// start column moved by [align_offset_spec] of its character count.
pub open spec fn layout_next(c: LayoutSetup, s: LayoutState) -> Option<(Option<Cell>, LayoutState)>
    decreases c.text.len() - s.line_start, current_len(s),
{
    let step = match s.current {
        Some(rem) => if token_ok(rem) {
            match token_step(rem) {
                Some((Ok(tok), k)) => if 0 < k <= rem.len() {
                    Some((tok, LayoutState { current: Some(rem.subrange(k, rem.len() as int)), ..s }))
                } else {
                    None
                },
                _ => None,
            }
        } else {
            None
        },
        None => None,
    };
    let emitted = match step {
        Some((TokenView::Text(t), s1)) => if decode_utf8(t).len() > 0 {
            Some((decode_utf8(t)[0], s1))
        } else {
            None
        },
        Some((TokenView::Space, s1)) => Some((' ', s1)),
        _ => None,
    };
    if s.current matches Some(rem) && !token_ok(rem) {
        None
    } else if emitted is Some {
        let (ch, s1) = emitted->0;
        if !fits_i32(s1.x + 1) {
            None
        } else {
            Some(
                (
                    Some(
                        Cell {
                            tile: Tile { glyph: ch, fg_color: s1.fg, bg_color: s1.bg },
                            pos: [s1.x as i32, s1.y as i32],
                        },
                    ),
                    LayoutState { x: s1.x + 1, ..s1 },
                ),
            )
        }
    } else if step matches Some((TokenView::Newline, _)) {
        let s1 = (step->0).1;
        if !fits_i32(s1.y + 1) {
            None
        } else {
            layout_next(c, LayoutState { current: None, y: s1.y + 1, ..s1 })
        }
    } else {
        let s2 = match step {
            Some((TokenView::FgStart(col, _), s1)) => LayoutState { fg: col, ..s1 },
            Some((TokenView::BgStart(col, _), s1)) => LayoutState { bg: col, ..s1 },
            Some((TokenView::FgEnd, s1)) => LayoutState { fg: c.fg, ..s1 },
            Some((TokenView::BgEnd, s1)) => LayoutState { bg: c.bg, ..s1 },
            Some((_, s1)) => s1,
            None => LayoutState { current: None, y: s.y + 1, ..s },
        };
        if !fits_i32(s2.y) {
            None
        } else if s2.line_start >= c.text.len() {
            Some((None, s2))
        } else {
            match measured_line(c.text, s2.line_start, c.max_width) {
                None => None,
                Some((e, n)) => if s2.line_start < e <= c.text.len() && is_char_boundary(c.text, e)
                    && fits_i32(n) && fits_i32(c.start_x + align_offset_spec(c.pivot, n)) {
                    layout_next(
                        c,
                        LayoutState {
                            x: c.start_x + align_offset_spec(c.pivot, n),
                            current: Some(c.text.subrange(s2.line_start, e)),
                            line_start: e,
                            ..s2
                        },
                    )
                } else {
                    None
                },
            }
        }
    }
}

/// An iterator-like reader that lays out the characters of a tagged string
/// line by line.
pub struct LayoutIterator<'a> {
    text: &'a str,
    start: [i32; 2],
    x: i32,
    y: i32,
    /// Byte index for the start of the next line within text
    line_start: usize,
    fg: Color,
    bg: Color,
    default_fg: Color,
    default_bg: Color,
    max_width: usize,
    current_line: Option<TokenIterator<'a>>,
    pivot: Pivot,
}

impl<'a> LayoutIterator<'a> {
    /// What the layout is given.
    pub closed spec fn setup(&self) -> LayoutSetup {
        LayoutSetup {
            text: self.text.spec_bytes(),
            start_x: self.start[0] as int,
            max_width: self.max_width as int,
            pivot: self.pivot,
            fg: self.default_fg,
            bg: self.default_bg,
        }
    }

    /// Where the layout stands.
    pub closed spec fn state(&self) -> LayoutState {
        LayoutState {
            x: self.x as int,
            y: self.y as int,
            line_start: self.line_start as int,
            fg: self.fg,
            bg: self.bg,
            current: match self.current_line {
                Some(it) => Some(it.remaining().spec_bytes()),
                None => None,
            },
        }
    }

    /// The next line starts at a character boundary of the text.
    pub closed spec fn wf(&self) -> bool {
        &&& self.line_start <= self.text.spec_bytes().len()
        &&& is_char_boundary(self.text.spec_bytes(), self.line_start as int)
    }

    /// A layout of `input` whose lines start at column `start.x` (moved by the
    /// pivot), the first one on the row above `start.y`, wrapped at `wrap_width`
    /// characters, in the default colors.
    pub fn new(
        input: &'a str,
        start: [i32; 2],
        wrap_width: usize,
        pivot: Pivot,
        default_fg: Color,
        default_bg: Color,
    ) -> (r: LayoutIterator<'a>)
        ensures
            r.wf(),
            r.setup() == (LayoutSetup {
                text: input.spec_bytes(),
                start_x: start[0] as int,
                max_width: wrap_width as int,
                pivot,
                fg: default_fg,
                bg: default_bg,
            }),
            r.state() == (LayoutState {
                x: start[0] as int,
                y: start[1] as int,
                line_start: 0,
                fg: default_fg,
                bg: default_bg,
                current: None,
            }),
    {
        proof {
            crate::strings::utf8_text::lemma_ends_are_boundaries(input);
        }
        LayoutIterator {
            text: input,
            start,
            x: start[0],
            y: start[1],
            line_start: 0,
            fg: default_fg,
            bg: default_bg,
            default_fg,
            default_bg,
            max_width: wrap_width,
            current_line: None,
            pivot,
        }
    }

    /// The next laid out character, or `None` once the text is used up, as
    /// [layout_next] describes.
    #[verifier::rlimit(80)]
    #[verifier::spinoff_prover]
    pub fn next(&mut self) -> (r: Option<Cell>)
        requires
            old(self).wf(),
            layout_next(old(self).setup(), old(self).state()) is Some,
        ensures
            final(self).wf(),
            final(self).setup() == old(self).setup(),
            layout_next(old(self).setup(), old(self).state()) == Some((r, final(self).state())),
    {
        let ghost setup = self.setup();
        let ghost result = layout_next(self.setup(), self.state());
        loop
            invariant
                self.wf(),
                self.setup() == setup,
                setup == old(self).setup(),
                result == layout_next(old(self).setup(), old(self).state()),
                result is Some,
                layout_next(setup, self.state()) == result,
            decreases setup.text.len() - self.state().line_start, current_len(self.state()),
        {
            let mut cur: Option<TokenIterator<'a>> = None;
            std::mem::swap(&mut cur, &mut self.current_line);
            let tok = match cur {
                Some(mut it) => {
                    let ghost rb = it.remaining().spec_bytes();
                    proof {
                        lemma_token_step_progress(rb);
                    }
                    let t = it.next();
                    self.current_line = Some(it);
                    t
                },
                None => None,
            };
            match tok {
                Some(Ok(token)) => {
                    match token {
                        Token::Text(text) => {
                            let chars = chars_vec(text);
                            proof {
                                assert(decode_utf8(text.spec_bytes()) == text@);
                            }
                            if chars.len() > 0 {
                                let cell = Cell {
                                    tile: Tile { glyph: chars[0], fg_color: self.fg, bg_color: self.bg },
                                    pos: [self.x, self.y],
                                };
                                self.x = self.x + 1;
                                return Some(cell);
                            }
                        },
                        Token::Space => {
                            let cell = Cell {
                                tile: Tile { glyph: ' ', fg_color: self.fg, bg_color: self.bg },
                                pos: [self.x, self.y],
                            };
                            self.x = self.x + 1;
                            return Some(cell);
                        },
                        Token::Newline => {
                            self.current_line = None;
                            self.y = self.y + 1;
                            continue ;
                        },
                        Token::FgStart(c, _) => {
                            self.fg = c;
                        },
                        Token::BgStart(c, _) => {
                            self.bg = c;
                        },
                        Token::FgEnd => {
                            self.fg = self.default_fg;
                        },
                        Token::BgEnd => {
                            self.bg = self.default_bg;
                        },
                    }
                },
                _ => {
                    self.current_line = None;
                    self.y = self.y + 1;
                },
            }
            // Start a new line
            let n = self.text.as_bytes().len();
            if self.line_start >= n {
                return None;
            }
            let (line_end, charcount) = measure_line(self.text, self.line_start, self.max_width);
            let offset = align_offset(self.pivot, charcount);
            self.x = self.start[0] + offset;
            proof {
                lemma_prefix_boundary(self.text.spec_bytes(), line_end as int, self.line_start as int);
            }
            let line = self.text.split_at(line_end).0.split_at(self.line_start).1;
            proof {
                assert(line.spec_bytes() =~= self.text.spec_bytes().subrange(
                    self.line_start as int,
                    line_end as int,
                ));
            }
            self.current_line = Some(TokenIterator::new(line));
            self.line_start = line_end;
        }
    }
}

} // verus!
