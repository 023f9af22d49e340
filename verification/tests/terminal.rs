use ascii_terminal::color::{BLACK, BLUE, RED, WHITE, YELLOW};
use ascii_terminal::padding::{BoxStyle, ColorWrite, Padding};
use ascii_terminal::pivot::{Pivot, PivotedPoint};
use ascii_terminal::renderer::mesh::border_offset;
use ascii_terminal::strings::{TerminalString, TerminalStringBuilder};
use ascii_terminal::terminal::Terminal;
use ascii_terminal::tile::Tile;

fn row_text(t: &Terminal, row: usize) -> String {
    t.iter_row(row).iter().map(|t| t.glyph).collect()
}

#[test]
fn put_string_negative() {
    let mut terminal = Terminal::new([10, 10])
        .with_clear_char('.')
        .with_pivot(Pivot::Center);
    terminal.put_string([-2, 2].into(), "Hello".into());

    terminal.set_pivot(Pivot::TopLeft);
    assert_eq!(terminal.tile([1, 2]).glyph, 'H');
}

#[test]
fn read_line() {
    let mut terminal = Terminal::new([20, 10]);
    terminal.put_string([2, 2].into(), "Hello, World!".into());
    let line: String = terminal.read_line(2, 7).into_iter().collect();
    assert_eq!(line, "  Hello");
}

#[test]
fn new_terminal_is_blank() {
    let t = Terminal::new([4, 3]);
    assert_eq!(t.width(), 4);
    assert_eq!(t.height(), 3);
    assert_eq!(t.size(), [4, 3]);
    assert_eq!(t.tile_count(), 12);
    assert!(t.tiles().iter().all(|tile| *tile == Tile::default()));
    assert_eq!(t.clear_tile(), Tile::default());
}

#[test]
fn put_char_then_read_it_back() {
    let mut t = Terminal::new([10, 10]);
    t.put_char([5, 5].into(), 'X').fg(RED);
    let tile = *t.tile([5, 5]);
    assert_eq!(tile.glyph, 'X');
    assert_eq!(tile.fg_color, RED);
    assert_eq!(t.tiles()[5 * 10 + 5].glyph, 'X');
}

#[test]
fn pivoted_point_uses_its_own_pivot() {
    let mut t = Terminal::new([5, 5]);
    t.put_char(PivotedPoint::new([0, 0], Pivot::TopRight), 'Z');
    assert_eq!(t.tiles()[4 * 5 + 4].glyph, 'Z');
    t.put_char(PivotedPoint::new([1, 1], Pivot::Center), 'C');
    assert_eq!(t.tiles()[3 * 5 + 3].glyph, 'C');
}

#[test]
fn transform_points() {
    let mut t = Terminal::new([10, 10]);
    assert_eq!(t.try_transform_point([3, 4]), Some([3, 4]));
    assert_eq!(t.try_transform_point([10, 0]), None);
    assert_eq!(t.try_transform_point([-1, 0]), None);
    t.set_pivot(Pivot::Center);
    assert_eq!(t.try_transform_point([-5, -5]), Some([0, 0]));
    assert_eq!(t.try_transform_point_to_index([0, 0]), Some(55));
    t.set_pivot(Pivot::TopLeft);
    t.set_padding(Padding { left: 1, top: 1, right: 1, bottom: 1 });
    assert_eq!(t.inner_width(), 8);
    assert_eq!(t.inner_height(), 8);
    assert_eq!(t.inner_size(), [8, 8]);
    assert_eq!(t.try_transform_point([0, 0]), Some([1, 8]));
}

#[test]
fn index_and_tile_round_trip() {
    let t = Terminal::new([7, 3]);
    for i in 0..21usize {
        let xy = t.index_to_tile(i);
        assert_eq!(t.tile_to_index(xy), i);
    }
    assert_eq!(t.index_to_tile(9), [2, 1]);
}

#[test]
fn maybe_put_and_fill() {
    let mut t = Terminal::new([3, 2]);
    t.maybe_put([1, 1], Some('a'), None, Some(BLUE));
    assert_eq!(t.tiles()[4], Tile::new('a', WHITE, BLUE));
    t.maybe_fill(None, Some(YELLOW), None);
    assert!(t.tiles().iter().all(|tile| tile.fg_color == YELLOW));
    assert_eq!(t.tiles()[4].glyph, 'a');
    t.fill(Tile::new('#', RED, BLACK));
    assert!(t.tiles().iter().all(|tile| *tile == Tile::new('#', RED, BLACK)));
    t.clear();
    assert!(t.tiles().iter().all(|tile| *tile == Tile::default()));
}

#[test]
fn clear_tile_builders() {
    let t = Terminal::new([2, 2]).with_clear_tile(Tile::new('x', RED, BLUE));
    assert!(t.tiles().iter().all(|tile| *tile == Tile::new('x', RED, BLUE)));
    let t = t.with_clear_char('.').with_fg_clear_color(YELLOW).with_bg_clear_color(BLACK);
    assert_eq!(t.clear_tile(), Tile::new('.', YELLOW, BLACK));
    assert!(t.tiles().iter().all(|tile| *tile == Tile::new('.', YELLOW, BLACK)));
}

#[test]
fn put_colors_and_tiles() {
    let mut t = Terminal::new([4, 4]);
    t.put_fg_color([1, 2].into(), RED);
    t.put_bg_color([1, 2].into(), BLUE);
    assert_eq!(*t.tile([1, 2]), Tile::new(' ', RED, BLUE));
    t.put_tile([3, 3].into(), Tile::new('q', BLACK, WHITE));
    assert_eq!(t.tiles()[15], Tile::new('q', BLACK, WHITE));
    if let Some(tile) = t.try_tile_mut([0, 0]) {
        tile.glyph = '0';
    }
    assert_eq!(t.tiles()[0].glyph, '0');
    assert!(t.try_tile_mut([4, 0]).is_none());
    t.tile_mut([2, 0]).glyph = '2';
    assert_eq!(t.tiles()[2].glyph, '2');
}

#[test]
fn resize_refills_with_clear_tile() {
    let mut t = Terminal::new([3, 3]).with_clear_char('.');
    t.put_char([0, 0].into(), 'x');
    t.resize([3, 3]);
    assert_eq!(t.tiles()[0].glyph, 'x');
    t.resize([1, 5]);
    assert_eq!(t.size(), [2, 5]);
    assert_eq!(t.tile_count(), 10);
    assert!(t.tiles().iter().all(|tile| tile.glyph == '.'));
}

#[test]
fn border_sets_padding() {
    let t = Terminal::new([5, 4]).with_border(BoxStyle::single_line());
    assert_eq!(row_text(&t, 3), "┌───┐");
    assert_eq!(row_text(&t, 2), "│   │");
    assert_eq!(row_text(&t, 1), "│   │");
    assert_eq!(row_text(&t, 0), "└───┘");
    assert_eq!(t.padding(), Padding { left: 1, top: 1, right: 1, bottom: 1 });
    let t = Terminal::new([3, 3]).with_border(BoxStyle::double_line().dont_reset_padding());
    assert_eq!(row_text(&t, 2), "╔═╗");
    assert_eq!(t.padding(), Padding::zero());
}

#[test]
fn box_with_colors() {
    let mut t = Terminal::new([6, 5]);
    let mut style = BoxStyle::single_line();
    style.fg_color = Some(ColorWrite::Color(RED));
    style.bg_color = Some(ColorWrite::Clear);
    t.put_box([1, 1], [3, 3], style);
    assert_eq!(row_text(&t, 3), " ┌─┐  ");
    assert_eq!(row_text(&t, 2), " │ │  ");
    assert_eq!(row_text(&t, 1), " └─┘  ");
    assert_eq!(row_text(&t, 0), "      ");
    assert_eq!(t.tiles()[6 + 1].fg_color, RED);
    assert_eq!(t.tiles()[6 + 1].bg_color, BLACK);
    assert_eq!(t.tiles()[2 * 6 + 2].fg_color, WHITE);
}

#[test]
fn clear_inner_keeps_border() {
    let mut t = Terminal::new([5, 4]).with_border(BoxStyle::single_line());
    t.fill(Tile::new('.', WHITE, BLACK));
    t.put_border(BoxStyle::single_line());
    t.clear_inner();
    assert_eq!(row_text(&t, 3), "┌───┐");
    assert_eq!(row_text(&t, 2), "│   │");
    assert_eq!(row_text(&t, 1), "│   │");
    assert_eq!(row_text(&t, 0), "└───┘");
}

#[test]
fn title_is_written_to_top_row() {
    let t = Terminal::new([10, 3])
        .with_border(BoxStyle::single_line())
        .with_title("  Title".into());
    assert_eq!(row_text(&t, 2), "┌─Title──┐");
    assert_eq!(t.padding(), Padding { left: 1, top: 1, right: 1, bottom: 1 });
}

#[test]
fn tagged_strings_are_colored() {
    let mut t = Terminal::new([12, 2]).with_pivot(Pivot::TopLeft);
    t.put_string([0, 0].into(), "a<fg=red>b</fg>c <bg=blue>d".into());
    assert_eq!(row_text(&t, 1), "abc d       ");
    assert_eq!(t.tiles()[12].fg_color, WHITE);
    assert_eq!(t.tiles()[13].fg_color, RED);
    assert_eq!(t.tiles()[14].fg_color, WHITE);
    assert_eq!(t.tiles()[16].bg_color, BLUE);
}

#[test]
fn tagged_strings_wrap_down_from_the_top() {
    let mut t = Terminal::new([6, 3]).with_pivot(Pivot::TopLeft);
    t.put_string([0, 0].into(), "one two three".into());
    assert_eq!(row_text(&t, 2), "one   ");
    assert_eq!(row_text(&t, 1), "two   ");
    assert_eq!(row_text(&t, 0), "three ");
}

#[test]
fn plain_strings_keep_or_set_colors() {
    let mut t = Terminal::new([8, 2]).with_pivot(Pivot::TopLeft).with_fg_clear_color(YELLOW);
    t.put_char([0, 0].into(), 'x').fg(RED);
    t.put_string([0, 0].into(), "<fg=red>".dont_parse_tags().dont_clear_colors());
    assert_eq!(row_text(&t, 1), "<fg=red>");
    assert_eq!(t.tiles()[8].fg_color, RED);
    assert_eq!(t.tiles()[9].fg_color, YELLOW);
    t.put_string([0, 0].into(), "ab".dont_parse_tags().fg(BLUE));
    assert_eq!(t.tiles()[8].fg_color, BLUE);
    assert_eq!(t.tiles()[9].fg_color, BLUE);
}

#[test]
fn centered_string_is_aligned() {
    let mut t = Terminal::new([9, 1]).with_clear_char('.').with_pivot(Pivot::Center);
    t.put_string([0, 0].into(), "abc".into());
    assert_eq!(row_text(&t, 0), "...abc...");
    let mut t = Terminal::new([9, 1]).with_clear_char('.').with_pivot(Pivot::TopRight);
    t.put_string([0, 0].into(), "abc".into());
    assert_eq!(row_text(&t, 0), "......abc");
}

#[test]
fn with_string_ignores_the_points_pivot() {
    let t = Terminal::new([5, 1]).with_string(PivotedPoint::new([1, 0], Pivot::TopRight), "hi".into());
    assert_eq!(row_text(&t, 0), " hi  ");
}

#[test]
fn from_string_rows_top_down() {
    let t = Terminal::from_string("Hello\nWorld").unwrap();
    assert_eq!(t.size(), [5, 2]);
    assert_eq!(row_text(&t, 1), "Hello");
    assert_eq!(row_text(&t, 0), "World");
    let t = Terminal::from_string("ab\r\n\nc\n").unwrap();
    assert_eq!(t.size(), [2, 2]);
    assert_eq!(row_text(&t, 1), "ab");
    assert_eq!(row_text(&t, 0), "c ");
    assert!(Terminal::from_string("").is_none());
    assert!(Terminal::from_string("\n\n").is_none());
}

#[test]
fn rows_columns_and_rects() {
    let t = Terminal::from_string("abc\ndef\nghi").unwrap();
    let col: String = t.iter_column(1).iter().map(|t| t.glyph).collect();
    assert_eq!(col, "heb");
    let rect: String = t
        .iter_rect(ascii_terminal::grid_rect::GridRect::new([1, 1], [2, 2]))
        .iter()
        .map(|t| t.glyph)
        .collect();
    assert_eq!(rect, "efbc");
    let xy = t.iter_xy();
    assert_eq!(xy[4], ([1, 1], *t.tile([1, 1])));
    assert_eq!(t.bounds().size, [3, 3]);
}

#[test]
fn tiles_mut_changes_tiles() {
    let mut t = Terminal::new([2, 1]);
    t.tiles_mut()[1].glyph = 'z';
    assert_eq!(t.tiles()[1].glyph, 'z');
}

#[test]
fn untagged_text_uses_padding_twice() {
    let mut t = Terminal::new([10, 3]).with_pivot(Pivot::TopLeft);
    t.set_padding(Padding { left: 1, top: 0, right: 1, bottom: 0 });
    t.put_string([0, 0].into(), TerminalString::new("abcdefgh").dont_parse_tags());
    let top: String = row_text(&t, 2);
    assert_eq!(top, " abcdef   ");
    assert_eq!(row_text(&t, 1), " gh       ");
}

#[test]
fn put_word_then_read_it_back() {
    let mut t = Terminal::new([10, 5]).with_clear_char('.');
    t.clear();
    t.put_string_tagged([3, 2], "Hello".into());
    assert_eq!(row_text(&t, 2), "...Hello..");
    assert_eq!(row_text(&t, 1), "..........");
    assert_eq!(row_text(&t, 3), "..........");
    assert_eq!(*t.tile([3, 2]), Tile::new('H', WHITE, BLACK));
    let line: String = t.read_line(2, 8).into_iter().collect();
    assert_eq!(line, "...Hello");
}

#[test]
fn tiles_of_the_padding_are_outside_the_padded_area() {
    let mut t = Terminal::new([10, 10])
        .with_pivot(Pivot::BottomLeft)
        .with_padding(Padding { left: 1, top: 1, right: 1, bottom: 1 });
    assert!(t.try_tile_mut([8, 0]).is_none());
    assert!(t.try_tile_mut([0, 8]).is_none());
    assert!(t.try_tile_mut([7, 7]).is_some());
    assert_eq!(t.try_transform_point([7, 7]), Some([8, 8]));
}

#[test]
fn every_index_converts_to_its_position_and_back() {
    let t = Terminal::new([7, 3]);
    for i in 0..t.tile_count() {
        assert_eq!(t.tile_to_index(t.index_to_tile(i)), i);
    }
    assert_eq!(t.index_to_tile(t.tile_to_index([4, 2])), [4, 2]);
}

#[test]
fn default_terminal_string_settings() {
    let ts: TerminalString<&str> = TerminalString::default();
    assert_eq!(ts.string, "");
    assert!(ts.word_wrap && ts.parse_tags && ts.clear_colors && ts.colored_spaces);
    assert_eq!((ts.fg_color, ts.bg_color), (None, None));
}

#[test]
fn checked_read_line() {
    let mut terminal = Terminal::new([20, 10]);
    terminal.put_string([2, 2].into(), "Hello, World!".into());
    let line: String = terminal.try_read_line(2, 7).unwrap().into_iter().collect();
    assert_eq!(line, "  Hello");
    assert_eq!(terminal.try_read_line(2, 0), None);
    assert_eq!(terminal.try_read_line(10, 3), None);
    assert_eq!(terminal.try_read_line(2, 1000), None);
}

#[test]
fn mesh_border_offset_by_pivot() {
    let single = BoxStyle::single_line();
    assert_eq!(border_offset(Pivot::TopLeft, Some(single)), [1, -1]);
    assert_eq!(border_offset(Pivot::TopCenter, Some(single)), [0, -1]);
    assert_eq!(border_offset(Pivot::BottomRight, Some(single)), [-1, 1]);
    assert_eq!(border_offset(Pivot::LeftCenter, Some(single)), [1, 0]);
    assert_eq!(border_offset(Pivot::Center, Some(single)), [0, 0]);
    assert_eq!(border_offset(Pivot::TopLeft, None), [0, 0]);
    let top_only = BoxStyle {
        center_left: ' ',
        center_right: ' ',
        bottom_left: ' ',
        bottom_center: ' ',
        bottom_right: ' ',
        top_left: ' ',
        top_right: ' ',
        ..single
    };
    assert_eq!(border_offset(Pivot::TopLeft, Some(top_only)), [0, -1]);
    assert_eq!(border_offset(Pivot::BottomLeft, Some(top_only)), [0, 0]);
}

#[test]
fn checked_put_string_writes_or_leaves_the_terminal() {
    let mut t = Terminal::new([10, 5]);
    assert!(t.try_put_string([1, 1].into(), "Hello <fg=red>you</fg>".into()));
    let mut u = Terminal::new([10, 5]);
    u.put_string([1, 1].into(), "Hello <fg=red>you</fg>".into());
    assert_eq!(t.tiles(), u.tiles());

    assert!(t.try_put_string([0, 3].into(), "plain <b>".dont_parse_tags()));
    u.put_string([0, 3].into(), "plain <b>".dont_parse_tags());
    assert_eq!(t.tiles(), u.tiles());

    let before: Vec<Tile> = t.tiles().to_vec();
    assert!(!t.try_put_string([20, 1].into(), "Hello".into()));
    assert!(!t.try_put_string([1, 1].into(), "ab <fg=nope>x".into()));
    assert!(!t.try_put_string([-1, 1].into(), "Hello".dont_parse_tags()));
    assert!(!t.try_put_string([1, 1].into(), "<aaé>x".into()));
    assert_eq!(t.tiles(), &before[..]);
}

#[test]
fn checked_put_title_writes_or_leaves_the_terminal() {
    let mut t = Terminal::new([12, 3]);
    assert!(t.try_put_title("  Title".into()));
    let u = Terminal::new([12, 3]).with_title("  Title".into());
    assert_eq!(t.tiles(), u.tiles());

    let before: Vec<Tile> = t.tiles().to_vec();
    assert!(!t.try_put_title("<fg=nope>Title".into()));
    assert_eq!(t.tiles(), &before[..]);
}

#[test]
fn owned_strings_build_terminal_strings() {
    let ts = String::from("hi").fg(RED);
    assert_eq!(ts.string, "hi");
    assert_eq!(ts.fg_color, Some(RED));
    assert!(ts.parse_tags && ts.word_wrap && ts.clear_colors && ts.colored_spaces);
    let ts = String::from("x").dont_parse_tags().dont_word_wrap();
    assert!(!ts.parse_tags && !ts.word_wrap);
}
