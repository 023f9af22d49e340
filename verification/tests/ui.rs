use ascii_terminal::color::{BLACK, BLUE, RED, WHITE, YELLOW};
use ascii_terminal::padding::BoxStyle;
use ascii_terminal::terminal::Terminal;
use ascii_terminal::ui::ui_box::{FormattedTile, UiBox};
use ascii_terminal::ui::ui_progress_bar::{ColorFill, GlyphFill, UiProgressBar};

fn row_text(t: &Terminal, row: usize) -> String {
    t.iter_row(row).iter().map(|t| t.glyph).collect()
}

#[test]
fn new_box_has_nothing_to_draw() {
    let b = UiBox::new();
    assert_eq!(b, UiBox { border_glyphs: None, fill_tile: None });
    let mut t = Terminal::new([4, 3]).with_clear_char('.');
    t.clear();
    b.draw([0, 0], [4, 3], &mut t);
    assert_eq!(row_text(&t, 0), "....");
}

#[test]
fn single_and_double_line_boxes() {
    assert_eq!(UiBox::single_line().border_glyphs, Some(BoxStyle::single_line()));
    assert_eq!(UiBox::double_line().border_glyphs, Some(BoxStyle::double_line()));
    assert_eq!(UiBox::single_line().fill_tile, None);
}

#[test]
fn draw_single_line_box() {
    let mut t = Terminal::new([5, 4]).with_clear_char('.');
    t.clear();
    UiBox::single_line().draw([1, 1], [3, 3], &mut t);
    assert_eq!(row_text(&t, 3), ".┌─┐.");
    assert_eq!(row_text(&t, 2), ".│.│.");
    assert_eq!(row_text(&t, 1), ".└─┘.");
    assert_eq!(row_text(&t, 0), ".....");
}

#[test]
fn cleared_box_fills_then_borders() {
    let mut t = Terminal::new([4, 4]).with_clear_char('.');
    t.clear();
    UiBox::double_line().cleared().draw([0, 0], [4, 4], &mut t);
    assert_eq!(row_text(&t, 3), "╔══╗");
    assert_eq!(row_text(&t, 2), "║  ║");
    assert_eq!(row_text(&t, 0), "╚══╝");
}

#[test]
fn color_fill_keeps_glyphs() {
    let mut t = Terminal::new([3, 2]).with_clear_char('x');
    t.clear();
    UiBox::new().color_fill(RED, BLUE).draw([1, 0], [2, 1], &mut t);
    assert_eq!(t.tile([0, 0]).fg_color, WHITE);
    assert_eq!(*t.tile([1, 0]), ascii_terminal::tile::Tile::new('x', RED, BLUE));
    assert_eq!(*t.tile([2, 0]), ascii_terminal::tile::Tile::new('x', RED, BLUE));
    assert_eq!(t.tile([1, 1]).fg_color, WHITE);
}

#[test]
fn formatted_tile_builders() {
    let f = FormattedTile::new().glyph('#').fg(YELLOW);
    assert_eq!(f, FormattedTile { glyph: Some('#'), fg_color: Some(YELLOW), bg_color: None });
    assert_eq!(
        FormattedTile::clear(),
        FormattedTile { glyph: Some(' '), fg_color: Some(WHITE), bg_color: Some(BLACK) }
    );
    let b = UiBox::new().filled(f);
    assert_eq!(b.fill_tile, Some(f));
}

#[test]
fn progress_bar_defaults() {
    let bar = UiProgressBar::default();
    assert_eq!((bar.value, bar.max), (0, 100));
    assert!(matches!(bar.glyph_fill, GlyphFill::EmptyOrFilled('░', '▓')));
    assert_eq!(bar.color_fill, ColorFill::EmptyOrFilled(WHITE, BLUE));
    let bar = UiProgressBar::new(5, 30);
    assert_eq!((bar.value(), bar.max), (5, 30));
}

#[test]
fn set_value_is_capped_at_max() {
    let mut bar = UiProgressBar::new(0, 30);
    bar.set_value(12);
    assert_eq!(bar.value(), 12);
    bar.set_value(31);
    assert_eq!(bar.value(), 30);
    bar.set_value(-4);
    assert_eq!(bar.value(), -4);
}

#[test]
fn transition_bar_glyphs() {
    let bar = UiProgressBar::transition_bar(3, 10);
    match &bar.glyph_fill {
        GlyphFill::EmptyOrFilledWithTransition(s) => assert_eq!(s, " ░▒▓█"),
        _ => panic!("expected a transition fill"),
    }
    let bar = bar.glyph_fill(GlyphFill::Static('#')).color_fill(ColorFill::Static(RED));
    assert!(matches!(bar.glyph_fill, GlyphFill::Static('#')));
    assert_eq!(bar.color_fill, ColorFill::Static(RED));
}
