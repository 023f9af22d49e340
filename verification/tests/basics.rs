use ascii_terminal::ascii::try_index_to_char;
use ascii_terminal::color::{
    ascii_eq_ignore_case, pack_rgba, parse_color_string, BLACK, DARK_GRAY, GRAY, RED, WHITE,
};
use ascii_terminal::grid_rect::GridRect;
use ascii_terminal::pivot::{Pivot, PivotedPoint};
use ascii_terminal::renderer::font::TerminalFont;
use ascii_terminal::renderer::mesh::TerminalMeshPivot;
use ascii_terminal::strings::decode_char;
use ascii_terminal::strings::whitespace::{is_whitespace, trim_end, trim_start};
use ascii_terminal::tile::Tile;

#[test]
fn code_page_437_table() {
    assert_eq!(try_index_to_char(0), Some('\u{0}'));
    assert_eq!(try_index_to_char(1), Some('☺'));
    assert_eq!(try_index_to_char(31), Some('▼'));
    assert_eq!(try_index_to_char(32), Some(' '));
    assert_eq!(try_index_to_char(65), Some('A'));
    assert_eq!(try_index_to_char(126), Some('~'));
    assert_eq!(try_index_to_char(127), Some('⌂'));
    assert_eq!(try_index_to_char(176), Some('░'));
    assert_eq!(try_index_to_char(219), Some('█'));
    assert_eq!(try_index_to_char(255), Some('\u{a0}'));
}

#[test]
fn packed_colors() {
    assert_eq!(pack_rgba(0x12, 0x34, 0x56, 0x78), 0x12345678);
    assert_eq!(pack_rgba(255, 255, 255, 255), WHITE);
    assert_eq!(pack_rgba(0, 0, 0, 255), BLACK);
}

#[test]
fn color_names_and_hex_codes() {
    assert_eq!(parse_color_string(b"red"), Some(RED));
    assert_eq!(parse_color_string(b"ReD"), Some(RED));
    assert_eq!(parse_color_string(b"grey"), Some(GRAY));
    assert_eq!(parse_color_string(b"dark_gray"), Some(DARK_GRAY));
    assert_eq!(parse_color_string(b"#FF0000"), Some(RED));
    assert_eq!(parse_color_string(b"#10203040"), Some(0x10203040));
    assert_eq!(parse_color_string(b"#ff00"), None);
    assert_eq!(parse_color_string(b"nocolor"), None);
    assert_eq!(parse_color_string(b""), None);
}

#[test]
fn ascii_case_insensitive_comparison() {
    assert!(ascii_eq_ignore_case(b"Blue", b"bLUE"));
    assert!(!ascii_eq_ignore_case(b"blue", b"blu"));
    assert!(!ascii_eq_ignore_case(b"blue", b"blux"));
}

#[test]
fn decode_chars_of_each_width() {
    let s = "aé€😀";
    let b = s.as_bytes();
    assert_eq!(decode_char(b, 0), ('a', 1));
    assert_eq!(decode_char(b, 1), ('é', 2));
    assert_eq!(decode_char(b, 3), ('€', 3));
    assert_eq!(decode_char(b, 6), ('😀', 4));
}

#[test]
fn grid_rect_edges() {
    let r = GridRect::new([-2, 3], [5, 4]);
    assert_eq!((r.left(), r.bottom(), r.right(), r.top()), (-2, 3, 2, 6));
    assert_eq!((r.width(), r.height()), (5, 4));
}

#[test]
fn pivot_positions_and_points() {
    assert_eq!(Pivot::BottomLeft.pivot_position(10, 5), (0, 0));
    assert_eq!(Pivot::TopRight.pivot_position(10, 5), (9, 4));
    assert_eq!(Pivot::Center.pivot_position(10, 5), (5, 2));
    assert_eq!(Pivot::Center.pivot_position(0, 0), (-1, -1));
    assert_eq!(Pivot::TopRight.transform_point([1, 2], 10, 5), (8, 2));
    assert_eq!(Pivot::TopLeft.transform_point([1, 2], 10, 5), (1, 2));
    assert_eq!(Pivot::BottomCenter.transform_point([-1, 3], 10, 5), (4, 3));
    let p = PivotedPoint::new([1, 2], Pivot::Center);
    assert_eq!((p.point, p.pivot), ([1, 2], Some(Pivot::Center)));
    let q: PivotedPoint = [3, 4].into();
    assert_eq!((q.point, q.pivot), ([3, 4], None));
}

#[test]
fn tile_builders() {
    let mut t = Tile::default();
    assert_eq!(t, Tile::new(' ', WHITE, BLACK));
    t.char('x').fg(RED).bg(WHITE);
    assert_eq!(t, Tile::new('x', RED, WHITE));
    assert_eq!(Tile::default().with_char('y').with_fg(RED), Tile::new('y', RED, BLACK));
    assert_eq!(
        Tile::new('a', RED, RED).patch(None, Some(WHITE), None),
        Tile::new('a', WHITE, RED)
    );
}

#[test]
fn font_asset_paths() {
    assert_eq!(
        TerminalFont::default().asset_path(),
        "embedded://bevy_ascii_terminal/renderer/built_in_fonts/px437_8x8.png"
    );
    assert_eq!(
        TerminalFont::Taffer10x10.asset_path(),
        "embedded://bevy_ascii_terminal/renderer/built_in_fonts/taffer_10x10.png"
    );
}

#[test]
fn mesh_pivot_defaults_to_center() {
    assert_eq!(TerminalMeshPivot::default(), TerminalMeshPivot(Pivot::Center));
    assert_eq!(TerminalMeshPivot::from(Pivot::TopLeft), TerminalMeshPivot(Pivot::TopLeft));
}

#[test]
fn unicode_whitespace_is_trimmed() {
    assert_eq!(trim_end("a\u{3000}\u{a0} \t"), "a");
    assert_eq!(trim_start("\u{2028}\u{85}\nb "), "b ");
    assert!(is_whitespace('\u{205f}'));
    assert!(!is_whitespace('\u{180e}'));
    assert!(!is_whitespace('x'));
}
