use std::collections::HashMap;

use ascii_terminal::ascii::try_index_to_char;
use ascii_terminal::color::{BLUE, RED};
use ascii_terminal::grid_rect::GridRect;
use ascii_terminal::pivot::{Pivot, PivotedPoint};
use ascii_terminal::strings::formatting::{StringDecoration, StringFormatting};
use ascii_terminal::strings::grid_iter::GridStringIterator;

/// Map each character in the string to its grid position
fn make_map(mut iter: GridStringIterator<'_>) -> HashMap<[i32; 2], char> {
    let mut map = HashMap::new();
    while let Some((p, (ch, _, _))) = iter.next() {
        map.insert(p, ch);
    }
    map
}

fn get_char(map: &HashMap<[i32; 2], char>, xy: [i32; 2]) -> char {
    *map.get(&xy).unwrap_or(&' ')
}

fn read_string(map: &HashMap<[i32; 2], char>, xy: [i32; 2], len: usize) -> String {
    (0..len)
        .map(|i| get_char(map, [xy[0] + i as i32, xy[1]]))
        .collect()
}

fn word_wrapping() -> StringFormatting {
    StringFormatting {
        word_wrap: true,
        ..Default::default()
    }
}

#[test]
fn iter_newline() {
    let area = GridRect::new([0, 0], [40, 40]);
    let iter = GridStringIterator::new(
        "A simple string\nWith a newline",
        area,
        [0, 0].into(),
        Some(word_wrapping()),
        None,
    );
    let map = make_map(iter);
    assert_eq!('g', get_char(&map, [14, 39]));
    assert_eq!('W', get_char(&map, [0, 38]))
}

#[test]
fn iter_no_word_wrap() {
    let area = GridRect::new([0, 0], [12, 20]);
    let iter = GridStringIterator::new(
        "A simple string\nWith a newline",
        area,
        [0, 0].into(),
        Some(StringFormatting::without_word_wrap()),
        None,
    );
    let map = make_map(iter);
    assert_eq!("A simple str", read_string(&map, [0, 19], 12));
    assert_eq!("ing", read_string(&map, [0, 18], 3));
    assert_eq!("With a newli", read_string(&map, [0, 17], 12));
    assert_eq!("ne", read_string(&map, [0, 16], 2));
}

#[test]
fn iter_word_wrap() {
    let area = GridRect::new([0, 0], [12, 20]);
    let iter = GridStringIterator::new(
        "A simple string\nWith a newline",
        area,
        [0, 0].into(),
        Some(word_wrapping()),
        None,
    );
    let map = make_map(iter);
    assert_eq!("A simple", read_string(&map, [0, 19], 8));
    assert_eq!("string", read_string(&map, [0, 18], 6));
    assert_eq!("With a", read_string(&map, [0, 17], 6));
    assert_eq!("newline", read_string(&map, [0, 16], 7));
}

#[test]
fn right_pivot() {
    let string = "A somewhat longer line\nWith a newline";
    let area = GridRect::new([0, 0], [12, 20]);
    let iter = GridStringIterator::new(
        string,
        area,
        PivotedPoint::new([0, 0], Pivot::TopRight),
        Some(word_wrapping()),
        None,
    );
    let map = make_map(iter);
    let assert_string_location = |string: &str, xy: [i32; 2]| {
        assert_eq!(string, read_string(&map, xy, string.len()));
    };
    assert_string_location("A somewhat", [2, 19]);
    assert_string_location("longer line", [1, 18]);
    assert_string_location("With a", [6, 17]);
    assert_string_location("newline", [5, 16]);
}

#[test]
fn delimiters() {
    let string = "A simple string";
    let area = GridRect::new([0, 0], [20, 5]);
    let iter = GridStringIterator::new(
        string,
        area,
        [0, 0].into(),
        None,
        Some(StringDecoration {
            delimiters: (Some('['), Some(']')),
            ..Default::default()
        }),
    );
    let map = make_map(iter);
    assert_eq!("[A simple string]", read_string(&map, [0, 4], 17));
}

#[test]
fn one_wide() {
    let string = "Abcdefg";
    let area = GridRect::new([0, 0], [1, 7]);
    let iter = GridStringIterator::new(string, area, [0, 0].into(), None, None);
    let map = make_map(iter);
    assert_eq!('A', get_char(&map, [0, 6]));
    assert_eq!('b', get_char(&map, [0, 5]));
    assert_eq!('c', get_char(&map, [0, 4]));
    assert_eq!('d', get_char(&map, [0, 3]));
    assert_eq!('e', get_char(&map, [0, 2]));
    assert_eq!('f', get_char(&map, [0, 1]));
    assert_eq!('g', get_char(&map, [0, 0]));
}

#[test]
fn leftbot() {
    let string = "LeftBot";
    let p = PivotedPoint::new([0, 0], Pivot::BottomLeft);
    let rect = GridRect::new([-1, 6], [1, 40]);
    let iter = GridStringIterator::new(string, rect, p, None, None);
    let map = make_map(iter);
    assert_eq!('L', get_char(&map, [-1, 12]));
    assert_eq!('e', get_char(&map, [-1, 11]));
    assert_eq!('f', get_char(&map, [-1, 10]));
    assert_eq!('t', get_char(&map, [-1, 9]));
    assert_eq!('B', get_char(&map, [-1, 8]));
    assert_eq!('o', get_char(&map, [-1, 7]));
    assert_eq!('t', get_char(&map, [-1, 6]));
}

#[test]
fn centered() {
    let string = "Hello\nThere";
    let p = PivotedPoint::new([0, 0], Pivot::Center);
    let rect = GridRect::new([0, 0], [11, 11]);
    let iter = GridStringIterator::new(string, rect, p, None, None);
    let map = make_map(iter);
    assert_eq!('H', get_char(&map, [3, 6]));
    assert_eq!('e', get_char(&map, [4, 6]));
    assert_eq!('l', get_char(&map, [5, 6]));
    assert_eq!('l', get_char(&map, [6, 6]));
    assert_eq!('o', get_char(&map, [7, 6]));
}

#[test]
fn wrap_after_unicode() {
    let mut string = String::with_capacity(512);
    for i in 0..=255u8 {
        string.push(try_index_to_char(i).unwrap());
        string.push('\n');
    }
    let mut iter = GridStringIterator::new(
        &string,
        GridRect::new([0, 0], [10, 500]),
        [0, 0].into(),
        None,
        None,
    );
    let mut count = 0;
    while iter.next().is_some() {
        count += 1;
    }
    assert!(count > 0);
}

#[test]
fn spaces_can_be_ignored_and_colors_kept() {
    let area = GridRect::new([0, 0], [10, 2]);
    let mut iter = GridStringIterator::new(
        "a b",
        area,
        [0, 0].into(),
        Some(StringFormatting {
            ignore_spaces: true,
            word_wrap: true,
        }),
        Some(StringDecoration {
            fg_color: Some(RED),
            bg_color: Some(BLUE),
            ..Default::default()
        }),
    );
    assert_eq!(iter.next(), Some(([0, 1], ('a', Some(RED), Some(BLUE)))));
    assert_eq!(iter.next(), Some(([2, 1], ('b', Some(RED), Some(BLUE)))));
    assert_eq!(iter.next(), None);
}
