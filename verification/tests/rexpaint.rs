use std::io::Write;

use ascii_terminal::rex::reader::{XpCell, XpColor, XpError, XpFile};
use ascii_terminal::terminal::Terminal;
use flate2::write::GzEncoder;
use flate2::Compression;

fn gzip(bytes: &[u8]) -> Vec<u8> {
    let mut enc = GzEncoder::new(Vec::new(), Compression::default());
    enc.write_all(bytes).unwrap();
    enc.finish().unwrap()
}

fn cell_bytes(out: &mut Vec<u8>, ch: u32, fg: [u8; 3], bg: [u8; 3]) {
    out.extend_from_slice(&ch.to_le_bytes());
    out.extend_from_slice(&fg);
    out.extend_from_slice(&bg);
}

/// One layer, one column, two rows: 'A' on top over a transparent
/// background, 'B' below it.
fn one_column_image() -> Vec<u8> {
    let mut raw = Vec::new();
    raw.extend_from_slice(&(-1i32).to_le_bytes());
    raw.extend_from_slice(&1u32.to_le_bytes());
    raw.extend_from_slice(&1u32.to_le_bytes());
    raw.extend_from_slice(&2u32.to_le_bytes());
    cell_bytes(&mut raw, 65, [255, 0, 0], [255, 0, 255]);
    cell_bytes(&mut raw, 66, [0, 255, 0], [0, 0, 255]);
    raw
}

#[test]
fn read_parses_version_layers_and_cells() {
    let xp = XpFile::read(&gzip(&one_column_image())).unwrap();
    assert_eq!(xp.version, -1);
    assert_eq!(xp.layers.len(), 1);
    let layer = &xp.layers[0];
    assert_eq!((layer.width, layer.height), (1, 2));
    let black = XpColor { r: 0, g: 0, b: 0 };
    assert_eq!(
        layer.cells[0],
        XpCell { ch: 65, fg: XpColor { r: 255, g: 0, b: 0 }, bg: black }
    );
    assert_eq!(
        layer.cells[1],
        XpCell { ch: 66, fg: XpColor { r: 0, g: 255, b: 0 }, bg: XpColor { r: 0, g: 0, b: 255 } }
    );
}

#[test]
fn layer_get_counts_rows_from_the_bottom() {
    let xp = XpFile::read(&gzip(&one_column_image())).unwrap();
    let layer = &xp.layers[0];
    assert_eq!(layer.get(0, 0).unwrap().ch, 66);
    assert_eq!(layer.get(0, 1).unwrap().ch, 65);
    assert!(layer.get(1, 0).is_none());
    assert!(layer.get(0, 2).is_none());
}

#[test]
fn transparency_and_black() {
    assert!(XpColor::transparent().is_transparent());
    assert!(!XpColor::black().is_transparent());
    assert_eq!(XpColor::black(), XpColor { r: 0, g: 0, b: 0 });
}

#[test]
fn read_rejects_data_that_is_not_gzip() {
    assert_eq!(XpFile::read(b"definitely not gzip").unwrap_err(), XpError::Decompress);
}

#[test]
fn read_rejects_truncated_image() {
    assert_eq!(XpFile::read(&gzip(&[0, 0, 0, 0])).unwrap_err(), XpError::UnexpectedEof);
    let mut raw = one_column_image();
    raw.truncate(raw.len() - 1);
    assert_eq!(XpFile::read(&gzip(&raw)).unwrap_err(), XpError::UnexpectedEof);
}

#[test]
fn read_accepts_image_without_layers() {
    let mut raw = Vec::new();
    raw.extend_from_slice(&7i32.to_le_bytes());
    raw.extend_from_slice(&0u32.to_le_bytes());
    let xp = XpFile::read(&gzip(&raw)).unwrap();
    assert_eq!(xp.version, 7);
    assert!(xp.layers.is_empty());
    assert!(Terminal::from_rexpaint(&xp).is_none());
}

#[test]
fn terminal_from_rexpaint_writes_glyphs_and_colors() {
    let xp = XpFile::read(&gzip(&one_column_image())).unwrap();
    let t = Terminal::from_rexpaint(&xp).unwrap();
    assert_eq!(t.size(), [1, 2]);
    assert_eq!(t.tile([0, 0]).glyph, 'A');
    assert_eq!(t.tile([0, 0]).fg_color, 0xFF0000FF);
    assert_eq!(t.tile([0, 0]).bg_color, 0x000000FF);
    assert_eq!(t.tile([0, 1]).glyph, 'B');
    assert_eq!(t.tile([0, 1]).fg_color, 0x00FF00FF);
    assert_eq!(t.tile([0, 1]).bg_color, 0x0000FFFF);
}

#[test]
fn terminal_from_rexpaint_maps_code_page_437() {
    let mut raw = Vec::new();
    raw.extend_from_slice(&0i32.to_le_bytes());
    raw.extend_from_slice(&1u32.to_le_bytes());
    raw.extend_from_slice(&2u32.to_le_bytes());
    raw.extend_from_slice(&1u32.to_le_bytes());
    cell_bytes(&mut raw, 1, [1, 2, 3], [4, 5, 6]);
    cell_bytes(&mut raw, 219, [1, 2, 3], [4, 5, 6]);
    let xp = XpFile::read(&gzip(&raw)).unwrap();
    let t = Terminal::from_rexpaint(&xp).unwrap();
    assert_eq!(t.tile([0, 0]).glyph, '☺');
    assert_eq!(t.tile([1, 0]).glyph, '█');
    assert_eq!(t.tile([1, 0]).fg_color, 0x010203FF);
}

#[test]
fn later_layers_are_written_over_earlier_ones() {
    let mut raw = Vec::new();
    raw.extend_from_slice(&0i32.to_le_bytes());
    raw.extend_from_slice(&2u32.to_le_bytes());
    for ch in [65u32, 90u32] {
        raw.extend_from_slice(&1u32.to_le_bytes());
        raw.extend_from_slice(&1u32.to_le_bytes());
        cell_bytes(&mut raw, ch, [9, 9, 9], [0, 0, 0]);
    }
    let xp = XpFile::read(&gzip(&raw)).unwrap();
    let t = Terminal::from_rexpaint(&xp).unwrap();
    assert_eq!(t.tile([0, 0]).glyph, 'Z');
}

#[test]
fn read_accepts_image_whose_stream_fails_after_it() {
    let mut data = gzip(&one_column_image());
    let n = data.len();
    data[n - 8] ^= 0xFF;
    let xp = XpFile::read(&data).unwrap();
    assert_eq!(xp.layers[0].cells[1].ch, 66);
}

#[test]
fn read_reports_a_stream_that_fails_before_the_image_ends() {
    let mut data = gzip(&one_column_image());
    data.truncate(data.len() - 12);
    assert_eq!(XpFile::read(&data).unwrap_err(), XpError::Decompress);
}
