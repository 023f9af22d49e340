//! Properties that hold across the library's operations.
use vstd::prelude::*;
use vstd::utf8::*;

use crate::padding::Padding;
use crate::pivot::{Pivot, PivotedPoint};
use crate::strings::grid_string::{grid_lines_ok, grid_wrap, move_back};
use crate::strings::tagged_string::{
    blank, chars_of, first_char_width, has_stop, is_text_stop, lemma_text_fit_bound,
    lemma_token_step_progress, tagged_lines, tagged_lines_ok, tagged_rest, tagged_scan, tagged_wrap,
    bg_start_tag, close_byte, first_stop, is_first_stop, tag_prefix_len, tag_token, tagged_wrap_ok, text_fit, token_ok, token_position, token_step,
    ScanResult,
    utf8_char_count, TokenErrorKind, TokenErrorView, TokenView,
};
use crate::strings::whitespace::{
    leading_ws_len, lemma_leading_ws_len_bound, lemma_trimmed_end_len_bound, trim_end_seq,
    trim_start_seq, trimmed_end_len, unicode_whitespace,
};
use crate::terminal::put::{
    align_shift, lemma_run_tagged_unfold, line_shift, max_put_len, plain_color, plain_put, run_plain,
    run_tagged, run_tiles, run_tokens, line_read, tagged_put, write_run, TagCursor, TagRun,
};
use crate::strings::utf8_text::{
    newline_byte, byte_before, first_byte_before, is_first_byte_before, lemma_encode_take_skip_len,
    lemma_first_byte_exists, lemma_first_byte_unique,
};
use crate::color::ascii_ci_eq;
use crate::strings::layout::{current_len, layout_next, LayoutSetup, LayoutState};
use crate::strings::wrap::{
    lemma_wrap_cut_facts, search_len, wrap_count, wrap_cut, wrap_head, wrap_input_ok, wrap_lines_ok,
    wrap_rest,
};
use crate::terminal::TerminalView;
use crate::tile::Tile;

verus! {

broadcast use vstd::utf8::group_utf8_lib;

/// A character put on a terminal is read back from the same point, and no
/// other tile changes: after `put_char(pp, ch)` the terminal's tiles are those
/// of `v` with the tile at `pp` given the glyph `ch`, and that point still
/// names the same tile.
pub proof fn law_put_char_read_back(v: TerminalView, pp: PivotedPoint, ch: char)
    requires
        v.wf(),
        v.index_for(pp) is Some,
    ensures
        ({
            let i = v.index_for(pp)->0;
            let after = v.with_tiles(v.tiles.update(i, Tile { glyph: ch, ..v.tiles[i] }));
            &&& after.wf()
            &&& after.index_for(pp) == Some(i)
            &&& after.tiles[i].glyph == ch
            &&& after.tiles[i].fg_color == v.tiles[i].fg_color
            &&& after.tiles[i].bg_color == v.tiles[i].bg_color
            &&& forall|j: int| 0 <= j < v.tiles.len() && j != i ==> after.tiles[j] == v.tiles[j]
        }),
{
    let i = v.index_for(pp)->0;
    let q = v.transform_with(v.pivot_for(pp.pivot), pp.point[0] as int, pp.point[1] as int)->0;
    crate::terminal::lemma_index_in_bounds(v.width as int, v.height as int, q.0, q.1);
}

/// Converting a tile position to an index and back gives the position again:
/// the tile at column `x`, row `y` has index `y * width + x`, and that index
/// lies at column `index % width`, row `index / width`.
pub proof fn law_position_index_round_trip(v: TerminalView, x: int, y: int)
    requires
        v.wf(),
        0 <= x < v.width,
        0 <= y < v.height,
    ensures
        0 <= v.index(x, y) < v.tiles.len(),
        v.index(x, y) % (v.width as int) == x,
        v.index(x, y) / (v.width as int) == y,
{
    let w = v.width as int;
    crate::terminal::lemma_index_in_bounds(w, v.height as int, x, y);
    vstd::arithmetic::div_mod::lemma_fundamental_div_mod_converse(y * w + x, w, y, x);
}

/// Every index of the tiles comes from exactly one position: the tile at
/// index `i` lies at column `i % width`, row `i / width`, on the terminal.
pub proof fn law_index_position_round_trip(v: TerminalView, i: int)
    requires
        v.wf(),
        v.width > 0,
        0 <= i < v.tiles.len(),
    ensures
        0 <= i % (v.width as int) < v.width,
        0 <= i / (v.width as int) < v.height,
        v.index(i % (v.width as int), i / (v.width as int)) == i,
{
    lemma_position_of_index(v.width as int, v.height as int, i);
}

proof fn lemma_position_of_index(w: int, h: int, i: int)
    requires
        w > 0,
        0 <= i < w * h,
    ensures
        0 <= i % w < w,
        0 <= i / w < h,
        (i / w) * w + i % w == i,
{
    vstd::arithmetic::div_mod::lemma_fundamental_div_mod(i, w);
    vstd::arithmetic::div_mod::lemma_div_pos_is_pos(i, w);
    assert(i / w < h) by (nonlinear_arith)
        requires
            0 <= i < w * h,
            w > 0,
            i == w * (i / w) + i % w,
            0 <= i % w,
    ;
    assert((i / w) * w == w * (i / w)) by (nonlinear_arith);
}

/// Without padding, a point measured from the bottom left pivot is the tile
/// position itself, for every tile of the terminal.
pub proof fn law_bottom_left_is_tile_position(v: TerminalView, x: int, y: int)
    requires
        v.wf(),
        v.padding == Padding::zero_spec(),
        0 <= x < v.width,
        0 <= y < v.height,
    ensures
        v.transform_with(Pivot::BottomLeft, x, y) == Some((x, y)),
{
}

/// A line that wrapping gives is never longer than the width it was wrapped
/// to, counted in characters.
pub proof fn law_wrapped_line_fits(s: Seq<char>, max_len: int, word_wrap: bool)
    requires
        max_len > 0,
        grid_wrap(s, max_len, word_wrap) is Some,
    ensures
        grid_wrap(s, max_len, word_wrap) matches Some((line, _)) && line.len() <= max_len,
{
    let m = if max_len < s.len() {
        max_len
    } else {
        s.len() as int
    };
    if exists|j: int| 0 <= j < m && s[j] == '\n' {
        let j = choose|j: int| crate::strings::grid_string::is_first_newline(s, j, m);
        let k = choose|k: int| 0 <= k < m && s[k] == '\n';
        assert(crate::strings::grid_string::is_first_newline(s, j, m)) by {
            lemma_first_newline_exists(s, m, k);
        }
        lemma_trimmed_end_len_bound(s.take(j));
    } else if s.len() <= max_len {
        lemma_trimmed_end_len_bound(s);
    } else {
        let k = max_len - move_back(s, max_len, word_wrap);
        lemma_move_back_range(s, max_len, word_wrap);
        lemma_trimmed_end_len_bound(s.take(k));
    }
}

/// Wrapping ASCII text to a positive width never splits a character and
/// always ends: every line that repeated wrapping produces can be wrapped, and
/// each step consumes text.
pub proof fn law_ascii_wrapping_ends(b: Seq<u8>, max_len: int, word_wrap: bool, at_limit: bool)
    requires
        valid_utf8(b),
        forall|i: int| 0 <= i < b.len() ==> b[i] < 0x80,
        max_len > 0,
    ensures
        wrap_lines_ok(b, max_len, word_wrap, at_limit),
    decreases b.len(),
{
    lemma_wrap_cut_facts(b, max_len, word_wrap, at_limit);
    if max_len < b.len() {
        is_char_boundary_iff_not_is_continuation_byte(b, max_len);
    }
    let resume = wrap_cut(b, max_len, word_wrap, at_limit).1;
    let r = wrap_rest(b, max_len, word_wrap, at_limit);
    if r.len() > 0 {
        is_char_boundary_iff_not_is_continuation_byte(b, resume);
        valid_utf8_split(b, resume);
        law_ascii_wrapping_ends(r, max_len, word_wrap, at_limit);
    }
}

/// Wrapping text to a positive width by characters always ends: each line
/// that wrapping gives leaves a shorter remaining text, down to a blank one.
pub proof fn law_grid_wrapping_ends(s: Seq<char>, max_len: int, word_wrap: bool)
    requires
        max_len > 0,
    ensures
        grid_lines_ok(s, max_len, word_wrap),
    decreases s.len(),
{
    if let Some((_, r)) = grid_wrap(s, max_len, word_wrap) {
        lemma_grid_rest_shorter(s, max_len, word_wrap);
        law_grid_wrapping_ends(r, max_len, word_wrap);
    }
}

/// The rest of a text after one wrapped line is shorter than the text.
proof fn lemma_grid_rest_shorter(s: Seq<char>, max_len: int, word_wrap: bool)
    requires
        max_len > 0,
        grid_wrap(s, max_len, word_wrap) is Some,
    ensures
        grid_wrap(s, max_len, word_wrap) matches Some((_, r)) && r.len() < s.len(),
{
    let m = if max_len < s.len() {
        max_len
    } else {
        s.len() as int
    };
    if exists|j: int| 0 <= j < m && s[j] == '\n' {
        let k = choose|k: int| 0 <= k < m && s[k] == '\n';
        lemma_first_newline_exists(s, m, k);
        let j = choose|j: int| crate::strings::grid_string::is_first_newline(s, j, m);
        lemma_trim_start_of_suffix(s, j);
    } else if s.len() <= max_len {
    } else {
        let k = max_len - move_back(s, max_len, word_wrap);
        lemma_move_back_range(s, max_len, word_wrap);
        if k == 0 {
            lemma_full_move_back(s, max_len, word_wrap);
        }
        lemma_trim_start_of_suffix(s, k);
    }
}

/// Moving all the way back to the first character only happens where that
/// character is whitespace.
proof fn lemma_full_move_back(s: Seq<char>, max_len: int, word_wrap: bool)
    requires
        max_len > 0,
        move_back(s, max_len, word_wrap) == max_len,
    ensures
        unicode_whitespace(s[0]),
{
    if word_wrap && exists|k: int|
        0 <= k <= max_len && crate::strings::grid_string::ws_back(s, max_len, k) {
        let k0 = choose|k: int|
            0 <= k <= max_len && crate::strings::grid_string::ws_back(s, max_len, k);
        lemma_least_ws_back(s, max_len, k0);
        let mb = choose|k: int|
            0 <= k <= max_len && crate::strings::grid_string::ws_back(s, max_len, k) && forall|
                k2: int,
            |
                0 <= k2 < k ==> !crate::strings::grid_string::ws_back(s, max_len, k2);
        assert(crate::strings::grid_string::ws_back(s, max_len, mb));
        assert(mb == max_len);
    }
}

/// Trimming the leading whitespace of the suffix of `s` from `k` on leaves a
/// text no longer than the suffix, and shorter than it where the suffix
/// starts with whitespace.
proof fn lemma_trim_start_of_suffix(s: Seq<char>, k: int)
    requires
        0 <= k < s.len(),
    ensures
        trim_start_seq(s.skip(k)).len() <= s.len() - k,
        unicode_whitespace(s[k]) ==> trim_start_seq(s.skip(k)).len() < s.len() - k,
{
    let t = s.skip(k);
    lemma_leading_ws_len_bound(t);
    assert(t[0] == s[k]);
    if unicode_whitespace(s[k]) {
        assert(leading_ws_len(t) == 1 + leading_ws_len(t.drop_first()));
    }
}

/// How reading the tokens of a text one after another stops.
pub enum TokenRunEnd {
    /// Reading reached the end of the text: the next token is `None`.
    Ended,
    /// Reading gave an error.
    Failed(TokenErrorKind),
    /// Reading the next token would panic: a tag's first three bytes end
    /// inside a character.
    Panics,
}

/// Reading the tokens of `b` one after another, as repeated calls of
/// `TokenIterator::next` do: the number of tokens read successfully and how
/// reading stops.
pub open spec fn token_run(b: Seq<u8>) -> (nat, TokenRunEnd)
    decreases b.len(),
{
    if !token_ok(b) {
        (0, TokenRunEnd::Panics)
    } else {
        match token_step(b) {
            None => (0, TokenRunEnd::Ended),
            Some((Err(e), _)) => (0, TokenRunEnd::Failed(e)),
            Some((Ok(_), k)) => if 0 < k <= b.len() {
                let r = token_run(b.subrange(k, b.len() as int));
                (r.0 + 1, r.1)
            } else {
                (0, TokenRunEnd::Ended)
            },
        }
    }
}

/// Reading the tokens of a text one after another always stops, after at
/// most one successful token per byte: each successful token takes at least
/// one byte, and where no error comes (and no tag is cut inside a character)
/// reading ends with `None` exactly when the text is used up.
pub proof fn law_token_run_ends(b: Seq<u8>)
    ensures
        token_run(b).0 <= b.len(),
        (token_run(b).1 is Ended && token_run(b).0 == 0) ==> b.len() == 0,
        token_ok(b) ==> (token_step(b) matches Some((Ok(_), k)) ==> (0 < k <= b.len() && token_run(
            b,
        ).0 == 1 + token_run(b.subrange(k, b.len() as int)).0)),
    decreases b.len(),
{
    lemma_token_step_progress(b);
    if token_ok(b) {
        if let Some((Ok(_), k)) = token_step(b) {
            law_token_run_ends(b.subrange(k, b.len() as int));
        }
    }
}

/// Repeated wrapping of a tagged text panics at no step, as far as each step
/// leaves a shorter text.
pub open spec fn tagged_steps_ok(b: Seq<u8>, max_len: int, word_wrap: bool) -> bool
    decreases b.len(),
{
    &&& tagged_wrap_ok(b, max_len, word_wrap)
    &&& (tagged_rest(b, max_len, word_wrap).len() < b.len() ==> tagged_steps_ok(
        tagged_rest(b, max_len, word_wrap),
        max_len,
        word_wrap,
    ))
}

/// Wrapping a tagged text to a width of at least one always ends: where no
/// step panics, each line that wrapping gives leaves a shorter remaining text,
/// until wrapping fails or no text is left.
pub proof fn law_tagged_wrapping_ends(b: Seq<u8>, max_len: int, word_wrap: bool)
    requires
        valid_utf8(b),
        max_len >= 1,
        tagged_steps_ok(b, max_len, word_wrap),
    ensures
        tagged_lines_ok(b, max_len, word_wrap),
    decreases b.len(),
{
    if tagged_wrap(b, max_len, word_wrap) is Ok && b.len() > 0 {
        law_tagged_wrap_consumes(b, max_len, word_wrap);
        let r = tagged_rest(b, max_len, word_wrap);
        if r.len() > 0 {
            law_tagged_wrapping_ends(r, max_len, word_wrap);
        }
    } else if tagged_wrap(b, max_len, word_wrap) is Ok {
        reveal(tagged_wrap);
        assert(chars_of(b) =~= Seq::<char>::empty());
        assert(encode_utf8(Seq::<char>::empty()) =~= Seq::<u8>::empty());
    }
}

/// Wrapping a non-empty tagged text to a width of at least one leaves a
/// shorter remaining text.
pub proof fn law_tagged_wrap_consumes(b: Seq<u8>, max_len: int, word_wrap: bool)
    requires
        valid_utf8(b),
        b.len() > 0,
        max_len >= 1,
        tagged_wrap_ok(b, max_len, word_wrap),
        tagged_wrap(b, max_len, word_wrap) is Ok,
    ensures
        tagged_rest(b, max_len, word_wrap).len() < b.len(),
{
    reveal(tagged_wrap);
    reveal(tagged_wrap_ok);
    if blank(chars_of(b)) {
        assert(encode_utf8(Seq::<char>::empty()) =~= Seq::<u8>::empty());
    } else {
        lemma_first_scan_step(b, max_len, word_wrap);
        let e = tagged_scan(b, 0, 0, 0, (0i32, 0i32), max_len, word_wrap)->bytes;
        let x = b.subrange(e, b.len() as int);
        valid_utf8_split(b, e);
        decode_utf8_encode_utf8(x);
        let s = decode_utf8(x);
        lemma_leading_ws_len_bound(s);
        lemma_encode_take_skip_len(s, leading_ws_len(s) as int);
        if e == 0 {
            assert(x =~= b);
            assert(b[0] == 0x20u8);
            assert(0x20u8 & 0x7f == 0x20u8) by (bit_vector);
            assert(is_leading_byte_width_1(b[0]));
            assert(s[0] == ' ');
            assert(leading_ws_len(s) == 1 + leading_ws_len(s.drop_first()));
            assert(s.skip(leading_ws_len(s) as int) =~= s.drop_first().skip(
                leading_ws_len(s) - 1,
            ));
            lemma_leading_ws_len_bound(s.drop_first());
            lemma_encode_take_skip_len(s.drop_first(), leading_ws_len(s) - 1);
            assert(encode_utf8(s).len() == encode_scalar(s[0] as u32).len() + encode_utf8(
                s.drop_first(),
            ).len());
        }
    }
}

/// The scan of a tagged text that reads its first line either takes at least
/// one byte or stops at a space right at the start.
proof fn lemma_first_scan_step(b: Seq<u8>, max_len: int, word_wrap: bool)
    requires
        b.len() > 0,
        max_len >= 1,
    ensures
        tagged_scan(b, 0, 0, 0, (0i32, 0i32), max_len, word_wrap) matches ScanResult::Done { bytes: e, .. } ==> (0
            <= e <= b.len() && (e >= 1 || b[0] == 0x20u8)),
{
    lemma_token_step_progress(b);
    if token_ok(b) {
        if let Some((Ok(tok), k)) = token_step(b) {
            let rest = b.subrange(k, b.len() as int);
            match tok {
                TokenView::Text(t) => {
                    lemma_text_fit_bound(t, max_len);
                    if t.len() > 0 {
                        lemma_text_fit_bound(t.subrange(first_char_width(t), t.len() as int), max_len - 1);
                    }
                    lemma_scan_bytes(rest, k, utf8_char_count(t) as int, 0, token_position((0i32, 0i32), b), max_len, word_wrap);
                },
                TokenView::Space => {
                    lemma_scan_bytes(rest, k, 1, 1, token_position((0i32, 0i32), b), max_len, word_wrap);
                },
                TokenView::Newline => {},
                _ => {
                    lemma_scan_bytes(rest, k, 0, 0, token_position((0i32, 0i32), b), max_len, word_wrap);
                },
            }
        }
    }
}

/// The line a scan ends with takes the bytes it started with and at most
/// those of the text it reads.
proof fn lemma_scan_bytes(
    b: Seq<u8>,
    bytes: int,
    chars: int,
    trailing: int,
    pos: (i32, i32),
    max_len: int,
    word_wrap: bool,
)
    ensures
        tagged_scan(b, bytes, chars, trailing, pos, max_len, word_wrap) matches ScanResult::Done {
            bytes: e,
            ..
        } ==> bytes <= e <= bytes + b.len(),
    decreases b.len(),
{
    lemma_token_step_progress(b);
    if token_ok(b) {
        if let Some((Ok(tok), k)) = token_step(b) {
            let rest = b.subrange(k, b.len() as int);
            match tok {
                TokenView::Text(t) => {
                    lemma_text_fit_bound(t, max_len - chars);
                    lemma_scan_bytes(rest, bytes + k, chars + utf8_char_count(t) as int, 0, token_position(pos, b), max_len, word_wrap);
                },
                TokenView::Space => {
                    lemma_scan_bytes(rest, bytes + k, chars + 1, trailing + 1, token_position(pos, b), max_len, word_wrap);
                },
                TokenView::Newline => {},
                _ => {
                    lemma_scan_bytes(rest, bytes + k, chars, trailing, token_position(pos, b), max_len, word_wrap);
                },
            }
        }
    }
}

/// Writing a word on a row where it fits writes its characters there, from
/// the given column on, in the clear tile's colors, and changes nothing else:
/// on a terminal measured from the bottom left without padding, the tile `k`
/// places right of `(x, y)` gets the word's `k`-th character, and reading the
/// row up to the word's end gives the word back at its end. A word here is
/// ASCII text without spaces, newlines, `<` or `/`, and not ending in
/// whitespace.
pub proof fn law_put_word_read_back(
    v: TerminalView,
    x: int,
    y: int,
    word: Seq<char>,
    word_wrap: bool,
)
    requires
        v.wf(),
        v.pivot == Pivot::BottomLeft,
        v.padding == Padding::zero_spec(),
        0 <= x,
        x + word.len() <= v.width,
        0 <= y < v.height,
        0 < word.len(),
        x + word.len() <= max_put_len(),
        is_ascii_chars(word),
        forall|i: int|
            0 <= i < word.len() ==> #[trigger] word[i] != ' ' && word[i] != '<' && word[i] != '\n'
                && word[i] != '/',
        !unicode_whitespace(word.last()),
    ensures
        tagged_put(v, x, y, encode_utf8(word), word_wrap) == Some(
            write_run(
                v.tiles,
                y * v.width + x,
                word,
                Some(v.clear_tile.fg_color),
                Some(v.clear_tile.bg_color),
            ),
        ),
        forall|k: int|
            0 <= k < word.len() ==> (#[trigger] tagged_put(v, x, y, encode_utf8(word), word_wrap)->0[y
                * v.width + x + k]).glyph == word[k],
        line_read(
            v.with_tiles(tagged_put(v, x, y, encode_utf8(word), word_wrap)->0),
            y,
            x + word.len(),
        ) matches Some(line) && line.subrange(x, x + word.len()) == word,
{
    let b = encode_utf8(word);
    let n = word.len() as int;
    let w = v.width as int;
    lemma_word_bytes(word);
    lemma_word_token(b);
    lemma_ascii_text_fit(b, v.width - x);
    let empty = b.subrange(n, n);
    assert(empty =~= Seq::<u8>::empty());
    assert(b.subrange(0, n) =~= b);
    assert(decode_utf8(Seq::<u8>::empty()) =~= Seq::<char>::empty());
    lemma_trimmed_end_len_of_word(word);
    assert(trim_end_seq(word) =~= word);
    assert(leading_ws_len(Seq::<char>::empty()) == 0);
    assert(trim_start_seq(Seq::<char>::empty()) =~= Seq::<char>::empty());
    assert(trimmed_end_len(Seq::<char>::empty()) == 0);
    assert(token_ok(Seq::<u8>::empty()));
    assert(tagged_scan(Seq::<u8>::empty(), n, n, 0, token_position((0i32, 0i32), b), w - x, word_wrap) == (ScanResult::Done {
        bytes: n,
        chars: n,
        trailing: 0,
    }));
    assert(b.subrange(n, b.len() as int) =~= Seq::<u8>::empty());
    assert(tagged_scan(b, 0, 0, 0, (0i32, 0i32), w - x, word_wrap) == (ScanResult::Done {
        bytes: n,
        chars: n,
        trailing: 0,
    }));
    reveal(tagged_wrap_ok);
    reveal(tagged_wrap);
    assert(tagged_wrap_ok(b, w - x, word_wrap));
    assert(tagged_wrap(b, w - x, word_wrap) == Ok::<(Seq<char>, int, Seq<char>), TokenErrorView>((word, n, Seq::<char>::empty())));
    assert(tagged_wrap_ok(Seq::<u8>::empty(), w, word_wrap));
    assert(tagged_wrap(Seq::<u8>::empty(), w, word_wrap) == Ok::<(Seq<char>, int, Seq<char>), TokenErrorView>((Seq::<char>::empty(), 0, Seq::<char>::empty())));
    assert(encode_utf8(Seq::<char>::empty()) =~= Seq::<u8>::empty());
    crate::terminal::lemma_index_in_bounds(w, v.height as int, x, y);
    crate::terminal::lemma_index_in_bounds(w, v.height as int, x + n - 1, y);
    law_bottom_left_is_tile_position(v, x, y);
    law_bottom_left_is_tile_position(v, 0, 0);
    assert(v.inner_width() == w);
    assert(line_shift(v.pivot.y_halves(), 1) == 0);
    assert(align_shift(v.pivot.x_halves(), n) == 0);
    let c0 = TagCursor { x, y, fg: v.clear_tile.fg_color, bg: v.clear_tile.bg_color };
    let written = write_run(
        v.tiles,
        y * w + x,
        word,
        Some(v.clear_tile.fg_color),
        Some(v.clear_tile.bg_color),
    );
    let c1 = TagCursor { x: x + n, ..c0 };
    assert(run_tokens(w, written, Seq::<u8>::empty(), c1, 0, v.clear_tile) == TagRun::Going(
        written,
        c1,
    ));
    assert(decode_utf8(b) == word);
    assert(run_tokens(w, v.tiles, b, c0, 0, v.clear_tile) == TagRun::Going(written, c1));
    lemma_run_tagged_unfold(
        w,
        v.tiles,
        c0,
        b,
        n,
        Seq::<u8>::empty(),
        0,
        w,
        word_wrap,
        0,
        v.clear_tile,
    );
    assert(run_tiles(
        run_tagged(
            w,
            v.tiles,
            c0,
            b,
            n,
            Seq::<u8>::empty(),
            0,
            w,
            word_wrap,
            0,
            v.clear_tile,
        ),
    ) == Some(written));
    let after = v.with_tiles(written);
    law_bottom_left_is_tile_position(after, 0, y);
    assert(align_shift(after.pivot.x_halves(), x + n) == 0);
    let line = line_read(after, y, x + n)->0;
    assert(line.subrange(x, x + n) =~= word);
}

/// The UTF-8 bytes of a word are its characters, none of them a byte that
/// ends a run of text.
proof fn lemma_word_bytes(word: Seq<char>)
    requires
        is_ascii_chars(word),
        forall|i: int|
            0 <= i < word.len() ==> #[trigger] word[i] != ' ' && word[i] != '<' && word[i] != '\n'
                && word[i] != '/',
    ensures
        encode_utf8(word).len() == word.len(),
        forall|i: int|
            0 <= i < word.len() ==> #[trigger] encode_utf8(word)[i] < 0x80 && !is_text_stop(
                encode_utf8(word)[i],
            ),
{
    is_ascii_chars_encode_utf8(word);
    is_ascii_chars_nat_bound(word);
    assert forall|i: int| 0 <= i < word.len() implies #[trigger] encode_utf8(word)[i] < 0x80
        && !is_text_stop(encode_utf8(word)[i]) by {
        let c = word[i];
        assert(encode_utf8(word)[i] == c as u8);
        assert((c as nat) < 128);
        assert(c != ' ' && c != '<' && c != '\n' && c != '/');
        assert((c as u8) as nat == c as nat);
    }
}

/// The bytes of a word are one text token.
proof fn lemma_word_token(b: Seq<u8>)
    requires
        b.len() > 0,
        forall|i: int| 0 <= i < b.len() ==> #[trigger] b[i] < 0x80 && !is_text_stop(b[i]),
    ensures
        token_ok(b),
        token_step(b) == Some((Ok::<TokenView, TokenErrorKind>(TokenView::Text(b)), b.len() as int)),
{
    assert(!is_text_stop(b[0]));
    if has_stop(b) {
        let i = choose|i: int| 0 <= i < b.len() && is_text_stop(b[i]);
        assert(!is_text_stop(b[i]));
    }
}

/// ASCII text that fits all fits, one character per byte.
proof fn lemma_ascii_text_fit(t: Seq<u8>, avail: int)
    requires
        forall|i: int| 0 <= i < t.len() ==> #[trigger] t[i] < 0x80,
        t.len() <= avail,
    ensures
        text_fit(t, avail) is None,
        utf8_char_count(t) == t.len(),
    decreases t.len(),
{
    if t.len() > 0 {
        assert(t[0] < 0x80);
        let rest = t.subrange(1, t.len() as int);
        assert forall|i: int| 0 <= i < rest.len() implies #[trigger] rest[i] < 0x80 by {
            assert(rest[i] == t[i + 1]);
        }
        lemma_ascii_text_fit(rest, avail - 1);
    }
}

/// A text whose last character is not whitespace keeps all of it when its
/// trailing whitespace is trimmed.
proof fn lemma_trimmed_end_len_of_word(s: Seq<char>)
    requires
        s.len() > 0,
        !unicode_whitespace(s.last()),
    ensures
        trimmed_end_len(s) == s.len(),
{
}

proof fn lemma_first_newline_exists(s: Seq<char>, m: int, k: int)
    requires
        0 <= k < m,
        k < s.len(),
        s[k] == '\n',
    ensures
        exists|j: int| crate::strings::grid_string::is_first_newline(s, j, m),
    decreases k,
{
    if exists|i: int| 0 <= i < k && s[i] == '\n' {
        let i = choose|i: int| 0 <= i < k && s[i] == '\n';
        lemma_first_newline_exists(s, m, i);
    } else {
        assert(crate::strings::grid_string::is_first_newline(s, k, m));
    }
}

proof fn lemma_move_back_range(s: Seq<char>, max_len: int, word_wrap: bool)
    requires
        max_len >= 0,
    ensures
        0 <= move_back(s, max_len, word_wrap) <= max_len,
{
    if word_wrap && exists|k: int| 0 <= k <= max_len && crate::strings::grid_string::ws_back(s, max_len, k) {
        let k0 = choose|k: int| 0 <= k <= max_len && crate::strings::grid_string::ws_back(s, max_len, k);
        lemma_least_ws_back(s, max_len, k0);
    }
}

proof fn lemma_least_ws_back(s: Seq<char>, max_len: int, k0: int)
    requires
        0 <= k0 <= max_len,
        crate::strings::grid_string::ws_back(s, max_len, k0),
    ensures
        exists|k: int|
            0 <= k <= max_len && crate::strings::grid_string::ws_back(s, max_len, k) && forall|k2: int|
                0 <= k2 < k ==> !crate::strings::grid_string::ws_back(s, max_len, k2),
    decreases k0,
{
    if exists|k2: int| 0 <= k2 < k0 && crate::strings::grid_string::ws_back(s, max_len, k2) {
        let k2 = choose|k2: int| 0 <= k2 < k0 && crate::strings::grid_string::ws_back(s, max_len, k2);
        lemma_least_ws_back(s, max_len, k2);
    } else {
        assert(forall|k2: int|
            0 <= k2 < k0 ==> !crate::strings::grid_string::ws_back(s, max_len, k2));
    }
}

/// How the lines and characters of a string are placed around the anchor
/// point that a pivot gives. The first of `n` lines is raised [line_shift]
/// rows above the anchor row and each next line is one row lower, so the
/// lines take the rows from `shift` down to `shift - (n - 1)`: on a pivot's
/// bottom edge the last line lands on the anchor row and every line is
/// written above it; on the top edge the first line is on the anchor row; at
/// the center the anchor row holds the middle line, with an extra line below
/// it when the count is even. Characters of a line of `n` are moved left by
/// [align_shift] in the same way: from the left edge the first is on the
/// anchor column, from the right edge the last, and from the center the
/// middle one, with an extra character right of it when the count is even.
pub proof fn law_pivot_placement(n: int)
    requires
        n >= 1,
    ensures
        line_shift(0, n) - (n - 1) == 0,
        line_shift(2, n) == 0,
        0 <= line_shift(1, n) && 0 <= (n - 1 - line_shift(1, n)) - line_shift(1, n) <= 1,
        align_shift(0, n) == 0,
        align_shift(2, n) == n - 1,
        0 <= align_shift(1, n) && 0 <= (n - 1 - align_shift(1, n)) - align_shift(1, n) <= 1,
{
}

/// The end tag `</bg>`.
pub open spec fn bg_end_bytes() -> Seq<u8> {
    seq![0x3Cu8, 0x2F, 0x62, 0x67, 0x3E]
}

/// The end tag `</fg>`.
pub open spec fn fg_end_bytes() -> Seq<u8> {
    seq![0x3Cu8, 0x2F, 0x66, 0x67, 0x3E]
}

/// An end tag in front of `rest` is read as its token and takes its five bytes.
proof fn lemma_end_tag_token(t: Seq<u8>, rest: Seq<u8>)
    requires
        t == bg_end_bytes() || t == fg_end_bytes(),
    ensures
        token_ok(t + rest),
        token_step(t + rest) == Some(
            (
                Ok::<TokenView, TokenErrorKind>(
                    if t == bg_end_bytes() {
                        TokenView::BgEnd
                    } else {
                        TokenView::FgEnd
                    },
                ),
                5int,
            ),
        ),
        (t + rest).subrange(5, (t + rest).len() as int) == rest,
{
    let b = t + rest;
    let n = b.len() as int;
    assert(b[0] == 0x3Cu8 && b[1] == 0x2Fu8 && b[3] == 0x67u8 && b[4] == 0x3Eu8);
    assert(is_first_byte_before(b, close_byte(), 4, n));
    assert(byte_before(b, close_byte(), n));
    lemma_first_byte_exists(b, close_byte(), n);
    lemma_first_byte_unique(b, close_byte(), 4, first_byte_before(b, close_byte(), n), n);
    let tag = b.subrange(1, 4);
    assert(tag.len() == 3);
    assert(tag_prefix_len(tag) == 3);
    assert(tag.subrange(0, 3) =~= tag);
    reveal_with_fuel(valid_utf8, 4);
    assert(valid_utf8(tag));
    is_char_boundary_start_end_of_seq(tag);
    assert(b.subrange(5, n) =~= rest);
}

/// The end tag `</bg>` sets the background back to the clear tile's: writing
/// a line that starts with it writes the rest of the line exactly as the rest
/// is written from the clear background, whatever background was set before.
/// `</fg>` does the same for the foreground.
pub proof fn law_end_tags_restore_clear_colors(
    w: int,
    tiles: Seq<Tile>,
    rest: Seq<u8>,
    c: TagCursor,
    newline_x: int,
    clear: Tile,
)
    ensures
        run_tokens(w, tiles, bg_end_bytes() + rest, c, newline_x, clear) == run_tokens(
            w,
            tiles,
            rest,
            TagCursor { bg: clear.bg_color, ..c },
            newline_x,
            clear,
        ),
        run_tokens(w, tiles, fg_end_bytes() + rest, c, newline_x, clear) == run_tokens(
            w,
            tiles,
            rest,
            TagCursor { fg: clear.fg_color, ..c },
            newline_x,
            clear,
        ),
{
    lemma_end_tag_token(bg_end_bytes(), rest);
    lemma_end_tag_token(fg_end_bytes(), rest);
}

/// A word written right after `</bg>` gets the clear tile's background on
/// every one of its tiles (and keeps the cursor's foreground), whatever
/// background a `<bg=..>` tag set before. A word here is ASCII text without
/// spaces, newlines, `<` or `/`.
pub proof fn law_word_after_bg_end_has_clear_background(
    w: int,
    tiles: Seq<Tile>,
    word: Seq<char>,
    c: TagCursor,
    newline_x: int,
    clear: Tile,
)
    requires
        0 < word.len(),
        is_ascii_chars(word),
        forall|i: int|
            0 <= i < word.len() ==> #[trigger] word[i] != ' ' && word[i] != '<' && word[i] != '\n'
                && word[i] != '/',
    ensures
        run_tokens(w, tiles, bg_end_bytes() + encode_utf8(word), c, newline_x, clear) == if c.x < 0
            || c.y * w + c.x + word.len() > tiles.len() {
            TagRun::Fails
        } else {
            TagRun::Going(
                write_run(tiles, c.y * w + c.x, word, Some(c.fg), Some(clear.bg_color)),
                TagCursor { x: c.x + word.len(), bg: clear.bg_color, ..c },
            )
        },
        forall|k: int|
            0 <= k < word.len() && 0 <= c.x && 0 <= c.y * w + c.x && c.y * w + c.x + word.len()
                <= tiles.len() ==> (
            #[trigger] run_tiles(
                run_tokens(w, tiles, bg_end_bytes() + encode_utf8(word), c, newline_x, clear),
            )->0[c.y * w + c.x + k]).bg_color == clear.bg_color,
{
    let b = encode_utf8(word);
    law_end_tags_restore_clear_colors(w, tiles, b, c, newline_x, clear);
    lemma_word_bytes(word);
    lemma_word_token(b);
    assert(decode_utf8(b) == word);
    let c1 = TagCursor { bg: clear.bg_color, ..c };
    assert(b.subrange(b.len() as int, b.len() as int) =~= Seq::<u8>::empty());
    assert(token_ok(Seq::<u8>::empty()));
    let start = c.y * w + c.x;
    if !(c.x < 0 || start + word.len() > tiles.len()) {
        let written = write_run(tiles, start, word, Some(c.fg), Some(clear.bg_color));
        assert(run_tokens(
            w,
            written,
            Seq::<u8>::empty(),
            TagCursor { x: c.x + word.len(), ..c1 },
            newline_x,
            clear,
        ) == TagRun::Going(written, TagCursor { x: c.x + word.len(), ..c1 }));
        if 0 <= start {
            assert forall|k: int| 0 <= k < word.len() implies (#[trigger] written[start + k]).bg_color
                == clear.bg_color by {
                assert(written[start + k] == tiles[start + k].patched(
                    Some(word[k]),
                    Some(c.fg),
                    Some(clear.bg_color),
                ));
            }
        }
    }
}

/// No `<` from index `from` on in `b` is followed by `bg=` (in any case): no
/// background tag starts there.
pub open spec fn no_bg_start_from(b: Seq<u8>, from: int) -> bool {
    forall|i: int|
        from <= i && 0 <= i && i + 3 < b.len() && #[trigger] b[i] == 0x3Cu8 ==> !ascii_ci_eq(
            b.subrange(i + 1, i + 4),
            bg_start_tag(),
        )
}

/// A layout state whose background is the default one and whose text ahead
/// (the rest of the current line and the text from the next line on) holds
/// no background tag.
pub open spec fn default_bg_ahead(c: LayoutSetup, s: LayoutState) -> bool {
    &&& s.bg == c.bg
    &&& (s.current matches Some(r) ==> no_bg_start_from(r, 0))
    &&& 0 <= s.line_start
    &&& no_bg_start_from(c.text, s.line_start)
}

/// The token read from text without background tags is no background tag,
/// and the text after it has none either.
proof fn lemma_token_not_bg_start(r: Seq<u8>)
    requires
        no_bg_start_from(r, 0),
    ensures
        token_step(r) matches Some((Ok(tok), k)) ==> !(tok is BgStart) && (0 <= k <= r.len()
            ==> no_bg_start_from(r.subrange(k, r.len() as int), 0)),
{
    if let Some((Ok(tok), k)) = token_step(r) {
        if tok is BgStart {
            assert(r[0] == 0x3Cu8);
            lemma_first_byte_exists(r, close_byte(), r.len() as int);
            let e = first_byte_before(r, close_byte(), r.len() as int);
            let tag = r.subrange(1, e);
            let prefix = tag.subrange(0, tag_prefix_len(tag));
            assert(ascii_ci_eq(prefix, bg_start_tag()));
            assert(prefix.len() == 3);
            assert(prefix =~= r.subrange(1, 4));
            assert(false);
        }
        if 0 <= k <= r.len() {
            let t = r.subrange(k, r.len() as int);
            assert forall|i: int|
                0 <= i && 0 <= i && i + 3 < t.len() && #[trigger] t[i] == 0x3Cu8 implies !ascii_ci_eq(
                t.subrange(i + 1, i + 4),
                bg_start_tag(),
            ) by {
                assert(r[k + i] == 0x3Cu8);
                assert(t.subrange(i + 1, i + 4) =~= r.subrange(k + i + 1, k + i + 4));
            }
        }
    }
}

/// Laying out text without background tags keeps the default background:
/// from a state with the default background and no background tag ahead,
/// the next laid out character has the default background and the state
/// after it is such a state again. So every character laid out until the
/// next `<bg=..>` tag has the default background.
pub proof fn law_layout_keeps_default_bg(c: LayoutSetup, s: LayoutState)
    requires
        default_bg_ahead(c, s),
    ensures
        layout_next(c, s) matches Some((r, s1)) ==> (r matches Some(cell) ==> cell.tile.bg_color
            == c.bg) && default_bg_ahead(c, s1),
    decreases c.text.len() - s.line_start, current_len(s),
{
    if let Some(rem) = s.current {
        lemma_token_not_bg_start(rem);
    }
    lemma_layout_next_line(c, s);
    let step = match s.current {
        Some(rem) => if token_ok(rem) {
            match token_step(rem) {
                Some((Ok(tok), k)) => if 0 < k <= rem.len() {
                    Some((tok, LayoutState { current: Some(rem.subrange(k, rem.len() as int)), ..s }))
                } else {
                    None
                },
                _ => None,
            }
        } else {
            None
        },
        None => None,
    };
    if let Some((TokenView::Newline, s1)) = step {
        law_layout_keeps_default_bg(c, LayoutState { current: None, y: s1.y + 1, ..s1 });
    }
    let s2 = match step {
        Some((TokenView::FgStart(col, _), s1)) => LayoutState { fg: col, ..s1 },
        Some((TokenView::BgStart(col, _), s1)) => LayoutState { bg: col, ..s1 },
        Some((TokenView::FgEnd, s1)) => LayoutState { fg: c.fg, ..s1 },
        Some((TokenView::BgEnd, s1)) => LayoutState { bg: c.bg, ..s1 },
        Some((_, s1)) => s1,
        None => LayoutState { current: None, y: s.y + 1, ..s },
    };
    if let Some((e, n)) = crate::strings::layout::measured_line(c.text, s2.line_start, c.max_width) {
        if s2.line_start < e <= c.text.len() {
            let next = LayoutState {
                x: c.start_x + crate::strings::layout::align_offset_spec(c.pivot, n),
                current: Some(c.text.subrange(s2.line_start, e)),
                line_start: e,
                ..s2
            };
            assert(c.text.subrange(s.line_start, e) == c.text.subrange(s2.line_start, e));
            law_layout_keeps_default_bg(c, next);
        }
    }
}

/// Where laying out moves on to the next line of the text, the state it
/// starts that line from has the default background and no background tag
/// ahead, when the state it came from had them.
proof fn lemma_layout_next_line(c: LayoutSetup, s: LayoutState)
    requires
        s.bg == c.bg,
        0 <= s.line_start,
        no_bg_start_from(c.text, s.line_start),
    ensures
        forall|e: int|
            s.line_start < e <= c.text.len() ==> no_bg_start_from(
                #[trigger] c.text.subrange(s.line_start, e),
                0,
            ) && no_bg_start_from(c.text, e),
{
    assert forall|e: int| s.line_start < e <= c.text.len() implies no_bg_start_from(
        #[trigger] c.text.subrange(s.line_start, e),
        0,
    ) && no_bg_start_from(c.text, e) by {
        let t = c.text.subrange(s.line_start, e);
        assert forall|i: int|
            0 <= i && 0 <= i && i + 3 < t.len() && #[trigger] t[i] == 0x3Cu8 implies !ascii_ci_eq(
            t.subrange(i + 1, i + 4),
            bg_start_tag(),
        ) by {
            assert(c.text[s.line_start + i] == 0x3Cu8);
            assert(t.subrange(i + 1, i + 4) =~= c.text.subrange(
                s.line_start + i + 1,
                s.line_start + i + 4,
            ));
        }
    }
}

/// Reading `</bg>` in a layout sets the background back to the default one,
/// whatever background was set before: where the text ahead holds no
/// background tag, the next laid out character has the default background
/// and laying out goes on from a state that keeps it, so every character
/// laid out after the end tag, until the next `<bg=..>` tag, has the default
/// background.
pub proof fn law_layout_bg_end_restores_default(c: LayoutSetup, s: LayoutState, rest: Seq<u8>)
    requires
        s.current == Some(bg_end_bytes() + rest),
        no_bg_start_from(rest, 0),
        0 <= s.line_start,
        no_bg_start_from(c.text, s.line_start),
    ensures
        layout_next(c, s) matches Some((r, s1)) ==> (r matches Some(cell) ==> cell.tile.bg_color
            == c.bg) && s1.bg == c.bg && default_bg_ahead(c, s1),
{
    lemma_end_tag_token(bg_end_bytes(), rest);
    let s2 = LayoutState { bg: c.bg, current: Some(rest), ..s };
    lemma_layout_next_line(c, s2);
    if let Some((e, n)) = crate::strings::layout::measured_line(c.text, s2.line_start, c.max_width) {
        if s2.line_start < e <= c.text.len() {
            let next = LayoutState {
                x: c.start_x + crate::strings::layout::align_offset_spec(c.pivot, n),
                current: Some(c.text.subrange(s2.line_start, e)),
                line_start: e,
                ..s2
            };
            law_layout_keeps_default_bg(c, next);
        }
    }
}

/// The UTF-8 bytes of ASCII text without newlines: one byte per character,
/// each ASCII and none a newline.
proof fn lemma_ascii_line_bytes(w: Seq<char>)
    requires
        is_ascii_chars(w),
        forall|i: int| 0 <= i < w.len() ==> #[trigger] w[i] != '\n',
    ensures
        encode_utf8(w).len() == w.len(),
        forall|i: int|
            0 <= i < w.len() ==> #[trigger] encode_utf8(w)[i] < 0x80 && encode_utf8(w)[i] != 0x0Au8,
        valid_utf8(encode_utf8(w)),
        decode_utf8(encode_utf8(w)) == w,
{
    is_ascii_chars_encode_utf8(w);
    is_ascii_chars_nat_bound(w);
    assert forall|i: int| 0 <= i < w.len() implies #[trigger] encode_utf8(w)[i] < 0x80
        && encode_utf8(w)[i] != 0x0Au8 by {
        let c = w[i];
        assert(encode_utf8(w)[i] == c as u8);
        assert((c as nat) < 128);
        assert(c != '\n');
        assert((c as u8) as nat == c as nat);
    }
}

/// A line without newlines that fits is wrapped whole and leaves nothing.
proof fn lemma_wrap_fitting_line(b: Seq<u8>, max_len: int, word_wrap: bool)
    requires
        0 < b.len() <= max_len,
        forall|i: int| 0 <= i < b.len() ==> #[trigger] b[i] != 0x0Au8,
    ensures
        wrap_input_ok(b, max_len),
        wrap_head(b, max_len, word_wrap, true) == b,
        wrap_rest(b, max_len, word_wrap, true) == Seq::<u8>::empty(),
        wrap_lines_ok(b, max_len, word_wrap, true),
        wrap_count(b, max_len, word_wrap, true) == 1,
{
    assert(!byte_before(b, newline_byte(), search_len(b, max_len)));
    assert(b.subrange(0, b.len() as int) =~= b);
    assert(b.subrange(b.len() as int, b.len() as int) =~= Seq::<u8>::empty());
}

/// Two lines written with a pivot on the bottom edge: the first goes one row
/// above the row it is written at, so the second, the last one, lands on that
/// row and both are written. Writing plain text `w1`, a newline and `w2` at
/// column `ox` of the bottom row of a terminal measured from its bottom left
/// (without padding) writes `w1` from column `ox` of row 1 and `w2` from
/// column 0 of row 0, with the string's colors. Each line is ASCII text
/// without newlines that fits on its row.
pub proof fn law_plain_lines_stack_up_from_the_bottom(
    v: TerminalView,
    ox: int,
    w1: Seq<char>,
    w2: Seq<char>,
    word_wrap: bool,
    clear_colors: bool,
    fg: Option<crate::color::Color>,
    bg: Option<crate::color::Color>,
)
    requires
        v.wf(),
        v.pivot == Pivot::BottomLeft,
        v.padding == Padding::zero_spec(),
        v.height >= 2,
        0 <= ox,
        0 < w1.len(),
        0 < w2.len(),
        ox + w1.len() < v.width,
        w2.len() <= v.width,
        w1.len() + w2.len() + 1 <= max_put_len(),
        is_ascii_chars(w1),
        is_ascii_chars(w2),
        forall|i: int| 0 <= i < w1.len() ==> #[trigger] w1[i] != '\n',
        forall|i: int| 0 <= i < w2.len() ==> #[trigger] w2[i] != '\n',
    ensures
        plain_put(
            v,
            ox,
            0,
            encode_utf8(w1) + seq![0x0Au8] + encode_utf8(w2),
            word_wrap,
            clear_colors,
            fg,
            bg,
        ) == Some(
            write_run(
                write_run(
                    v.tiles,
                    v.width + ox,
                    w1,
                    plain_color(fg, clear_colors, v.clear_tile.fg_color),
                    plain_color(bg, clear_colors, v.clear_tile.bg_color),
                ),
                0,
                w2,
                plain_color(fg, clear_colors, v.clear_tile.fg_color),
                plain_color(bg, clear_colors, v.clear_tile.bg_color),
            ),
        ),
{
    let b1 = encode_utf8(w1);
    let b2 = encode_utf8(w2);
    let nl = seq![0x0Au8];
    let s = b1 + nl + b2;
    lemma_ascii_line_bytes(w1);
    lemma_ascii_line_bytes(w2);
    let w = v.width as int;
    let pf = plain_color(fg, clear_colors, v.clear_tile.fg_color);
    let pb = plain_color(bg, clear_colors, v.clear_tile.bg_color);
    let max_len = v.inner_width() - v.padding.left - v.padding.right;
    assert(max_len == w);
    let first_len = max_len - ox;
    let n1 = b1.len() as int;
    // The first line ends at the newline.
    assert(s[n1] == 0x0Au8);
    assert(is_first_byte_before(s, newline_byte(), n1, search_len(s, first_len)));
    assert(byte_before(s, newline_byte(), search_len(s, first_len)));
    lemma_first_byte_exists(s, newline_byte(), search_len(s, first_len));
    lemma_first_byte_unique(
        s,
        newline_byte(),
        n1,
        first_byte_before(s, newline_byte(), search_len(s, first_len)),
        search_len(s, first_len),
    );
    assert(wrap_head(s, first_len, word_wrap, true) =~= b1);
    assert(wrap_rest(s, first_len, word_wrap, true) =~= b2);
    // The whole string is valid UTF-8 and cut on a character boundary.
    reveal_with_fuel(valid_utf8, 2);
    assert(valid_utf8(nl));
    valid_utf8_concat(b1, nl);
    valid_utf8_concat(b1 + nl, b2);
    if first_len < s.len() {
        assert(s[first_len] < 0x80) by {
            if first_len < n1 {
                assert(s[first_len] == b1[first_len]);
            } else if first_len > n1 {
                assert(s[first_len] == b2[first_len - n1 - 1]);
            }
        }
        is_char_boundary_iff_is_leading_byte(s, first_len);
    }
    assert(wrap_input_ok(s, first_len));
    lemma_wrap_fitting_line(b2, max_len, word_wrap);
    law_bottom_left_is_tile_position(v, ox, 0);
    law_bottom_left_is_tile_position(v, 0, 0);
    assert(line_shift(v.pivot.y_halves(), 2) == 1);
    assert(align_shift(v.pivot.x_halves(), w1.len() as int) == 0);
    assert(align_shift(v.pivot.x_halves(), w2.len() as int) == 0);
    crate::terminal::lemma_index_in_bounds(w, v.height as int, ox + w1.len() - 1, 1);
    crate::terminal::lemma_index_in_bounds(w, v.height as int, w2.len() - 1, 0);
    let t1 = write_run(v.tiles, w + ox, w1, pf, pb);
    let t2 = write_run(t1, 0, w2, pf, pb);
    assert(run_plain(w, t1, 0, 0, b2, Seq::<u8>::empty(), 0, max_len, word_wrap, v.pivot.x_halves(), pf, pb) == Some(t2));
    assert(run_plain(w, v.tiles, ox, 1, b1, b2, 0, max_len, word_wrap, v.pivot.x_halves(), pf, pb) == Some(t2));
}

/// The first `n` bytes of `b` hold no byte that ends text and the byte at `n`
/// does: the next token is those `n` bytes of text.
proof fn lemma_text_before_stop(b: Seq<u8>, n: int)
    requires
        0 < n < b.len(),
        forall|i: int| 0 <= i < n ==> !is_text_stop(#[trigger] b[i]),
        is_text_stop(b[n]),
    ensures
        token_ok(b),
        token_step(b) == Some(
            (Ok::<TokenView, TokenErrorKind>(TokenView::Text(b.subrange(0, n))), n),
        ),
{
    assert(!is_text_stop(b[0]));
    assert(is_first_stop(b, n));
    assert(has_stop(b));
    let f = first_stop(b);
    assert(is_first_stop(b, f));
    if f < n {
        assert(!is_text_stop(b[f]));
    }
    if f > n {
        assert(!is_text_stop(b[n]));
    }
}

/// A word on its own, wrapped to a width it fits, is one whole line and
/// leaves nothing; repeated wrapping of it gives one line.
proof fn lemma_tagged_word_wraps_whole(word: Seq<char>, width: int, word_wrap: bool)
    requires
        0 < word.len() <= width,
        is_ascii_chars(word),
        forall|i: int|
            0 <= i < word.len() ==> #[trigger] word[i] != ' ' && word[i] != '<' && word[i] != '\n'
                && word[i] != '/' && !unicode_whitespace(word[i]),
    ensures
        tagged_wrap_ok(encode_utf8(word), width, word_wrap),
        tagged_wrap(encode_utf8(word), width, word_wrap) == Ok::<
            (Seq<char>, int, Seq<char>),
            TokenErrorView,
        >((word, word.len() as int, Seq::<char>::empty())),
        tagged_lines_ok(encode_utf8(word), width, word_wrap),
        tagged_lines(encode_utf8(word), width, word_wrap) == Ok::<nat, TokenErrorView>(1),
        tagged_wrap_ok(Seq::<u8>::empty(), width, word_wrap),
        tagged_wrap(Seq::<u8>::empty(), width, word_wrap) == Ok::<
            (Seq<char>, int, Seq<char>),
            TokenErrorView,
        >((Seq::<char>::empty(), 0, Seq::<char>::empty())),
{
    let b = encode_utf8(word);
    let n = word.len() as int;
    lemma_word_bytes(word);
    lemma_word_token(b);
    lemma_ascii_text_fit(b, width);
    assert(b.subrange(n, n) =~= Seq::<u8>::empty());
    assert(b.subrange(0, n) =~= b);
    assert(decode_utf8(Seq::<u8>::empty()) =~= Seq::<char>::empty());
    lemma_trimmed_end_len_of_word(word);
    assert(trim_end_seq(word) =~= word);
    assert(leading_ws_len(Seq::<char>::empty()) == 0);
    assert(trim_start_seq(Seq::<char>::empty()) =~= Seq::<char>::empty());
    assert(trimmed_end_len(Seq::<char>::empty()) == 0);
    assert(token_ok(Seq::<u8>::empty()));
    assert(tagged_scan(
        Seq::<u8>::empty(),
        n,
        n,
        0,
        token_position((0i32, 0i32), b),
        width,
        word_wrap,
    ) == (ScanResult::Done { bytes: n, chars: n, trailing: 0 }));
    assert(b.subrange(n, b.len() as int) =~= Seq::<u8>::empty());
    assert(tagged_scan(b, 0, 0, 0, (0i32, 0i32), width, word_wrap) == (ScanResult::Done {
        bytes: n,
        chars: n,
        trailing: 0,
    }));
    reveal(tagged_wrap_ok);
    reveal(tagged_wrap);
    assert(decode_utf8(b) == word);
    assert(tagged_wrap(b, width, word_wrap) == Ok::<(Seq<char>, int, Seq<char>), TokenErrorView>(
        (word, n, Seq::<char>::empty()),
    ));
    assert(encode_utf8(Seq::<char>::empty()) =~= Seq::<u8>::empty());
    assert(tagged_rest(b, width, word_wrap).len() == 0);
}

/// Two lines of a tagged string written with a pivot on the bottom edge: the
/// first goes one row above the row it is written at, so the second, the
/// last one, lands on that row and both are written. Writing a word `w1`, a
/// newline and a word `w2` at column `ox` of the bottom row of a terminal
/// measured from its bottom left (without padding) writes `w1` from column
/// `ox` of row 1 and `w2` from column 0 of row 0, in the clear tile's colors.
/// A word here is ASCII text without whitespace, `<` or `/` that fits on
/// its row.
#[verifier::rlimit(30)]
pub proof fn law_tagged_lines_stack_up_from_the_bottom(
    v: TerminalView,
    ox: int,
    w1: Seq<char>,
    w2: Seq<char>,
    word_wrap: bool,
)
    requires
        v.wf(),
        v.pivot == Pivot::BottomLeft,
        v.padding == Padding::zero_spec(),
        v.height >= 2,
        0 <= ox,
        0 < w1.len(),
        0 < w2.len(),
        ox + w1.len() <= v.width,
        w2.len() <= v.width,
        w1.len() + w2.len() + 1 <= max_put_len(),
        is_ascii_chars(w1),
        is_ascii_chars(w2),
        forall|i: int|
            0 <= i < w1.len() ==> #[trigger] w1[i] != ' ' && w1[i] != '<' && w1[i] != '\n' && w1[i]
                != '/' && !unicode_whitespace(w1[i]),
        forall|i: int|
            0 <= i < w2.len() ==> #[trigger] w2[i] != ' ' && w2[i] != '<' && w2[i] != '\n' && w2[i]
                != '/' && !unicode_whitespace(w2[i]),
    ensures
        tagged_put(v, ox, 0, encode_utf8(w1 + seq!['\n'] + w2), word_wrap) == Some(
            write_run(
                write_run(
                    v.tiles,
                    v.width + ox,
                    w1,
                    Some(v.clear_tile.fg_color),
                    Some(v.clear_tile.bg_color),
                ),
                0,
                w2,
                Some(v.clear_tile.fg_color),
                Some(v.clear_tile.bg_color),
            ),
        ),
{
    let w = v.width as int;
    let n1 = w1.len() as int;
    let n2 = w2.len() as int;
    let head = w1 + seq!['\n'];
    let cs = head + w2;
    assert(is_ascii_chars(cs)) by {
        assert forall|i: int| 0 <= i < cs.len() implies '\0' <= #[trigger] cs[i] <= '\u{7f}' by {
            if i < n1 {
                assert(cs[i] == w1[i]);
            } else if i > n1 {
                assert(cs[i] == w2[i - n1 - 1]);
            }
        }
    }
    assert(is_ascii_chars(head)) by {
        assert forall|i: int| 0 <= i < head.len() implies '\0' <= #[trigger] head[i] <= '\u{7f}' by {
            if i < n1 {
                assert(head[i] == w1[i]);
            }
        }
    }
    let s = encode_utf8(cs);
    let b1 = encode_utf8(w1);
    let b2 = encode_utf8(w2);
    is_ascii_chars_encode_utf8(cs);
    is_ascii_chars_encode_utf8(head);
    is_ascii_chars_encode_utf8(w1);
    is_ascii_chars_encode_utf8(w2);
    lemma_word_bytes(w1);
    lemma_word_bytes(w2);
    // The bytes of the string: the first word, a newline and the second word.
    assert(s.subrange(0, n1) =~= b1) by {
        assert forall|i: int| 0 <= i < n1 implies s.subrange(0, n1)[i] == b1[i] by {
            assert(cs[i] == w1[i]);
        }
    }
    assert(s.subrange(0, n1 + 1) =~= encode_utf8(head)) by {
        assert forall|i: int| 0 <= i < n1 + 1 implies s.subrange(0, n1 + 1)[i] == encode_utf8(
            head,
        )[i] by {
            assert(cs[i] == head[i]);
        }
    }
    assert(s.subrange(n1 + 1, s.len() as int) =~= b2) by {
        assert forall|i: int| 0 <= i < n2 implies s.subrange(n1 + 1, s.len() as int)[i] == b2[i] by {
            assert(cs[n1 + 1 + i] == w2[i]);
        }
    }
    assert(s[n1] == 0x0Au8) by {
        assert(cs[n1] == '\n');
    }
    assert(s[n1 + 1] < 0x80) by {
        assert(cs[n1 + 1] == w2[0]);
    }
    // Scanning the first line: the first word, then the newline that ends it.
    assert forall|i: int| 0 <= i < n1 implies !is_text_stop(#[trigger] s[i]) by {
        assert(s[i] == b1[i]);
    }
    lemma_text_before_stop(s, n1);
    lemma_ascii_text_fit(b1, w - ox);
    let rest = s.subrange(n1, s.len() as int);
    assert(rest[0] == 0x0Au8);
    assert(token_ok(rest));
    assert(tagged_scan(rest, n1, n1, 0, token_position((0i32, 0i32), s), w - ox, word_wrap) == (
    ScanResult::Done { bytes: n1 + 1, chars: n1, trailing: 0 }));
    assert(tagged_scan(s, 0, 0, 0, (0i32, 0i32), w - ox, word_wrap) == (ScanResult::Done {
        bytes: n1 + 1,
        chars: n1,
        trailing: 0,
    }));
    // The first line is the first word and the second word remains.
    assert(decode_utf8(s) == cs);
    assert(cs.last() == w2.last());
    lemma_trimmed_end_len_of_word(cs);
    assert(!blank(chars_of(s)));
    assert(decode_utf8(encode_utf8(head)) == head);
    assert(head.drop_last() =~= w1);
    lemma_trimmed_end_len_of_word(w1);
    assert(trim_end_seq(head) =~= w1);
    assert(decode_utf8(b2) == w2);
    assert(leading_ws_len(w2) == 0);
    assert(trim_start_seq(w2) =~= w2);
    is_char_boundary_iff_is_leading_byte(s, n1 + 1);
    reveal(tagged_wrap_ok);
    reveal(tagged_wrap);
    assert(tagged_wrap_ok(s, w - ox, word_wrap));
    assert(tagged_wrap(s, w - ox, word_wrap) == Ok::<(Seq<char>, int, Seq<char>), TokenErrorView>(
        (w1, n1, w2),
    ));
    lemma_tagged_word_wraps_whole(w2, w, word_wrap);
    // Both lines are written, the first one row up.
    law_bottom_left_is_tile_position(v, ox, 0);
    law_bottom_left_is_tile_position(v, 0, 0);
    assert(v.inner_width() == w);
    assert(line_shift(v.pivot.y_halves(), 2) == 1);
    assert(align_shift(v.pivot.x_halves(), n1) == 0);
    assert(align_shift(v.pivot.x_halves(), n2) == 0);
    crate::terminal::lemma_index_in_bounds(w, v.height as int, ox + n1 - 1, 1);
    crate::terminal::lemma_index_in_bounds(w, v.height as int, n2 - 1, 0);
    let fg = v.clear_tile.fg_color;
    let bg = v.clear_tile.bg_color;
    let c0 = TagCursor { x: ox, y: 1, fg, bg };
    let t1 = write_run(v.tiles, w + ox, w1, Some(fg), Some(bg));
    let t2 = write_run(t1, 0, w2, Some(fg), Some(bg));
    lemma_word_token(b1);
    lemma_word_token(b2);
    assert(b1.subrange(n1, n1) =~= Seq::<u8>::empty());
    assert(b2.subrange(n2, n2) =~= Seq::<u8>::empty());
    assert(b1.subrange(n1, b1.len() as int) =~= Seq::<u8>::empty());
    assert(b2.subrange(n2, b2.len() as int) =~= Seq::<u8>::empty());
    assert(token_ok(Seq::<u8>::empty()));
    assert(decode_utf8(b1) == w1);
    let c1 = TagCursor { x: ox + n1, ..c0 };
    assert(run_tokens(w, t1, Seq::<u8>::empty(), c1, 0, v.clear_tile) == TagRun::Going(t1, c1));
    assert(run_tokens(w, v.tiles, b1, c0, 0, v.clear_tile) == TagRun::Going(t1, c1));
    let c2 = TagCursor { x: 0, y: 0, fg, bg };
    let c3 = TagCursor { x: n2, ..c2 };
    assert(run_tokens(w, t2, Seq::<u8>::empty(), c3, 0, v.clear_tile) == TagRun::Going(t2, c3));
    assert(run_tokens(w, t1, b2, c2, 0, v.clear_tile) == TagRun::Going(t2, c3));
    assert(encode_utf8(Seq::<char>::empty()) =~= Seq::<u8>::empty());
    lemma_run_tagged_unfold(w, t1, c2, b2, n2, Seq::<u8>::empty(), 0, w, word_wrap, 0, v.clear_tile);
    assert(run_tagged(w, t1, c2, b2, n2, Seq::<u8>::empty(), 0, w, word_wrap, 0, v.clear_tile)
        == TagRun::Halted(t2));
    lemma_run_tagged_unfold(w, v.tiles, c0, b1, n1, b2, 0, w, word_wrap, 0, v.clear_tile);
    assert(run_tagged(w, v.tiles, c0, b1, n1, b2, 0, w, word_wrap, 0, v.clear_tile)
        == TagRun::Halted(t2));
    reveal(tagged_put);
}

} // verus!
