use ascii_terminal::pivot::Pivot;
use ascii_terminal::strings::grid_string::{
    hor_pivot_offset, line_count, ver_pivot_offset, wrap_line,
};

#[test]
fn word_wrap() {
    let rem = "Use wasd to resize terminal";
    let (split, rem) = wrap_line(rem, 8, true).unwrap();
    assert_eq!("Use wasd", split);
    assert_eq!("to resize terminal", rem);
    let (split, rem) = wrap_line(rem, 8, true).unwrap();
    assert_eq!("to", split);
    assert_eq!("resize terminal", rem);
    let (split, rem) = wrap_line(rem, 8, true).unwrap();
    assert_eq!("resize", split);
    assert_eq!("terminal", rem);
    let (split, rem) = wrap_line(rem, 8, true).unwrap();
    assert_eq!("terminal", split);
    assert_eq!("", rem);
}

#[test]
fn grid_string_newline_line_wrap() {
    let (split, remaining) = wrap_line("A simple string\nWith a newline", 12, false).unwrap();
    assert_eq!("A simple str", split);
    assert_eq!("ing\nWith a newline", remaining);
    let (split, remaining) = wrap_line(remaining, 12, false).unwrap();
    assert_eq!("ing", split);
    assert_eq!("With a newline", remaining);
    let (split, remaining) = wrap_line(remaining, 12, false).unwrap();
    assert_eq!("With a newli", split);
    assert_eq!("ne", remaining);
    let (split, remaining) = wrap_line(remaining, 12, false).unwrap();
    assert_eq!("ne", split);
    assert_eq!("", remaining);
}

#[test]
fn grid_string_newline_word_wrap() {
    let (wrapped, remaining) = wrap_line("A simple string\nWith a newline", 12, true).unwrap();
    assert_eq!("A simple", wrapped);
    assert_eq!("string\nWith a newline", remaining);
    let (wrapped, remaining) = wrap_line(remaining, 12, true).unwrap();
    assert_eq!("string", wrapped);
    assert_eq!("With a newline", remaining);
    let (wrapped, remaining) = wrap_line(remaining, 12, true).unwrap();
    assert_eq!("With a", wrapped);
    assert_eq!("newline", remaining);
    let (wrapped, remaining) = wrap_line(remaining, 12, true).unwrap();
    assert_eq!("newline", wrapped);
    assert_eq!("", remaining);
}

#[test]
fn grid_string_wrap_line_count() {
    let string = "A somewhat longer line\nWith a newline or two\nOkay? WHEEEEEE.";
    assert_eq!(7, line_count(string, 12, true));
    assert_eq!(6, line_count(string, 12, false));
}

#[test]
fn y_offset_wrap() {
    let string = "A somewhat longer line\nWith a newline or two\nOkay? WHEEEEEE.";
    let line_len = 12;
    let wrap = true;
    let offset = ver_pivot_offset(string, Pivot::TopLeft, line_len, wrap);
    assert_eq!(0, offset);
    assert_eq!(7, line_count(string, 12, wrap));
    assert_eq!(6, ver_pivot_offset(string, Pivot::BottomLeft, 12, wrap));
}

#[test]
fn y_offset_no_wrap() {
    let string = "A somewhat longer line\nWith a newline or two\nOkay? WHEEEEEE.";
    let line_len = 12;
    let wrap = false;
    let offset = ver_pivot_offset(string, Pivot::TopLeft, line_len, wrap);
    assert_eq!(0, offset);
    let offset = ver_pivot_offset(string, Pivot::BottomLeft, line_len, wrap);
    assert_eq!(6, line_count(string, line_len, false));
    assert_eq!(5, offset);
}

#[test]
fn blank_string_has_no_line() {
    assert_eq!(None, wrap_line("   \n  ", 5, true));
    assert_eq!(0, line_count("  \t ", 5, true));
}

#[test]
fn horizontal_offsets_follow_the_pivot() {
    assert_eq!(0, hor_pivot_offset(Pivot::BottomLeft, 11));
    assert_eq!(-5, hor_pivot_offset(Pivot::Center, 11));
    assert_eq!(-5, hor_pivot_offset(Pivot::TopCenter, 10));
    assert_eq!(-10, hor_pivot_offset(Pivot::RightCenter, 11));
    assert_eq!(0, hor_pivot_offset(Pivot::TopRight, 0));
}

#[test]
fn vertical_offset_of_centered_text() {
    let string = "A somewhat longer line\nWith a newline or two\nOkay? WHEEEEEE.";
    // Seven lines: the first one is three lines above the center.
    assert_eq!(3, ver_pivot_offset(string, Pivot::Center, 12, true));
}

#[test]
fn every_wrapped_line_fits_its_width() {
    let text = "A quick brown fox\njumps over the lazy dog, then sleeps for a while.";
    for width in 1..12usize {
        for word_wrap in [false, true] {
            let mut rest = text;
            let mut steps = 0;
            while let Some((line, rem)) = wrap_line(rest, width, word_wrap) {
                assert!(line.chars().count() <= width, "{line:?} wider than {width}");
                rest = rem;
                steps += 1;
                assert!(steps < 200);
            }
        }
    }
}

#[test]
fn multibyte_text_is_split_by_characters() {
    assert_eq!(wrap_line("éé é", 2, true), Some(("éé", "é")));
    assert_eq!(wrap_line("ab c", 2, true), Some(("ab", "c")));
    assert_eq!(wrap_line("éééé", 3, false), Some(("ééé", "é")));
    assert_eq!(line_count("é é é", 1, true), 3);
}
