use ascii_terminal::string::{line_count, wrap_line};

#[test]
fn string_newline_line_wrap() {
    let (split, remaining) = wrap_line("A simple string\nWith a newline", 12, false);
    assert_eq!("A simple str", split);
    assert_eq!("ing\nWith a newline", remaining);
    let (split, remaining) = wrap_line(remaining, 12, false);
    assert_eq!("ing", split);
    assert_eq!("With a newline", remaining);
    let (split, remaining) = wrap_line(remaining, 12, false);
    assert_eq!("With a newli", split);
    assert_eq!("ne", remaining);
    let (split, remaining) = wrap_line(remaining, 12, false);
    assert_eq!("ne", split);
    assert_eq!("", remaining);
}

#[test]
fn string_newline_word_wrap() {
    let (wrapped, remaining) = wrap_line("A simple string\nWith a newline", 12, true);
    assert_eq!("A simple", wrapped);
    assert_eq!("string\nWith a newline", remaining);
    let (wrapped, remaining) = wrap_line(remaining, 12, true);
    assert_eq!("string", wrapped);
    assert_eq!("With a newline", remaining);
    let (wrapped, remaining) = wrap_line(remaining, 12, true);
    assert_eq!("With a", wrapped);
    assert_eq!("newline", remaining);
    let (wrapped, remaining) = wrap_line(remaining, 12, true);
    assert_eq!("newline", wrapped);
    assert_eq!("", remaining);
}

#[test]
fn string_wrap_line_count() {
    let string = "A somewhat longer line\nWith a newline or two\nOkay? WHEEEEEE.";
    assert_eq!(7, line_count(string, 12, true));
    assert_eq!(6, line_count(string, 12, false));
}

#[test]
fn wrap_line_hard_breaks_on_multibyte_boundary() {
    // "é" is two bytes, so six bytes hold three of them.
    let (split, remaining) = wrap_line("ééééé", 6, true);
    assert_eq!("ééé", split);
    assert_eq!("éé", remaining);
}

#[test]
fn wrap_line_short_input_is_returned_whole() {
    let (split, remaining) = wrap_line("short", 10, true);
    assert_eq!("short", split);
    assert_eq!("", remaining);
    assert_eq!(1, line_count("", 10, true));
}

#[test]
fn ascii_wrapping_ends_for_every_width() {
    let text = "Some plain ascii text, with spaces\nand a newline.";
    for width in 1..20usize {
        for word_wrap in [false, true] {
            let count = line_count(text, width, word_wrap);
            let mut lines = 1;
            let (mut line, mut rest) = wrap_line(text, width, word_wrap);
            assert!(line.len() <= width);
            while !rest.is_empty() {
                let next = wrap_line(rest, width, word_wrap);
                line = next.0;
                rest = next.1;
                assert!(line.len() <= width);
                lines += 1;
            }
            assert_eq!(count, lines);
        }
    }
}
