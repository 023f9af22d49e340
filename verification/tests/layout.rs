use ascii_terminal::strings::layout::try_measure_line;
use ascii_terminal::color::{BLACK, BLUE, RED, WHITE};
use ascii_terminal::pivot::Pivot;
use ascii_terminal::strings::layout::{align_offset, measure_line, Cell, LayoutIterator};

fn collect(mut it: LayoutIterator<'_>) -> Vec<Cell> {
    let mut cells = Vec::new();
    while let Some(cell) = it.next() {
        cells.push(cell);
    }
    cells
}

#[test]
fn wrap() {
    let input =
        "<fg=blue>Hello</fg> world! Here is a decently long string. Let's see how it gets split.";
    let mut it = LayoutIterator::new(input, [1, 1], 25, Pivot::TopRight, WHITE, BLACK);
    while let Some(_cell) = it.next() {}
}

#[test]
fn measure_line_stops_before_overflowing_space() {
    assert_eq!(measure_line("Hello world", 0, 5), (5, 5));
}

#[test]
fn measure_line_counts_newline_byte() {
    assert_eq!(measure_line("ab\ncd", 0, 10), (3, 2));
    assert_eq!(measure_line("ab\ncd", 3, 10), (5, 2));
}

#[test]
fn measure_line_cuts_long_words_by_char() {
    assert_eq!(measure_line("abcdefgh", 0, 3), (3, 3));
    assert_eq!(measure_line("héllo", 0, 2), (3, 2));
}

#[test]
fn measure_line_counts_tag_bytes() {
    assert_eq!(measure_line("<fg=red>ab", 0, 10), (10, 2));
    assert_eq!(measure_line("<fg=red>ab</fg>", 0, 10), (15, 2));
}

#[test]
fn measure_line_counts_escape_bytes() {
    assert_eq!(measure_line("a/<b", 0, 10), (4, 3));
}

#[test]
fn align_offset_by_pivot() {
    assert_eq!(align_offset(Pivot::TopLeft, 7), 0);
    assert_eq!(align_offset(Pivot::Center, 7), -3);
    assert_eq!(align_offset(Pivot::BottomCenter, 8), -4);
    assert_eq!(align_offset(Pivot::RightCenter, 7), -7);
}

#[test]
fn layout_emits_first_char_of_each_word() {
    let cells = collect(LayoutIterator::new("ab cd", [0, 0], 10, Pivot::TopLeft, WHITE, BLACK));
    let got: Vec<(char, [i32; 2])> = cells.iter().map(|c| (c.tile.glyph, c.pos)).collect();
    assert_eq!(got, vec![('a', [0, 1]), (' ', [1, 1]), ('c', [2, 1])]);
}

#[test]
fn layout_right_pivot_shifts_line() {
    let cells = collect(LayoutIterator::new("ab cd", [10, 0], 10, Pivot::TopRight, WHITE, BLACK));
    assert_eq!(cells[0].pos, [5, 1]);
}

#[test]
fn layout_colors_follow_tags() {
    let cells = collect(LayoutIterator::new(
        "<fg=blue>ab\ncd",
        [0, 0],
        20,
        Pivot::TopLeft,
        WHITE,
        RED,
    ));
    let got: Vec<(char, [i32; 2], u32, u32)> =
        cells.iter().map(|c| (c.tile.glyph, c.pos, c.tile.fg_color, c.tile.bg_color)).collect();
    // A tag ends the pass over its line: the rest of that line is skipped and
    // the next line is laid out on the same row, in the tag's color.
    assert_eq!(got, vec![('c', [0, 1], BLUE, RED)]);
}

#[test]
fn layout_skips_the_rest_of_a_line_after_a_tag() {
    let cells = collect(LayoutIterator::new(
        "<fg=blue>a</fg> b",
        [0, 0],
        10,
        Pivot::TopLeft,
        WHITE,
        RED,
    ));
    assert!(cells.is_empty());
}

#[test]
fn layout_of_empty_text_is_empty() {
    let cells = collect(LayoutIterator::new("", [0, 0], 10, Pivot::TopLeft, WHITE, BLACK));
    assert!(cells.is_empty());
}

#[test]
fn checked_measure_line() {
    assert_eq!(try_measure_line("ab", 0, 10), Some((2, 2)));
    assert_eq!(try_measure_line("é", 1, 10), None);
    assert_eq!(try_measure_line("<aaé>x", 0, 10), None);
}
