//! Provides for reading of REXPaint .xp files: a gzip stream holding a version,
//! a layer count and, for each layer, its width, height and cells in
//! column-major order, all integers little endian. Transparent (hot pink)
//! backgrounds are read as black.
use std::io::Read;

use byteorder::{ByteOrder, LittleEndian};
use vstd::prelude::*;

verus! {

/// Structure representing the components of one color.
#[derive(Debug, Clone, Copy, PartialEq, Eq, Structural)]
pub struct XpColor {
    /// Red component 0..255
    pub r: u8,
    /// Green component 0..255
    pub g: u8,
    /// Blue component 0..255
    pub b: u8,
}

/// Deepest black.
pub open spec fn xp_black() -> XpColor {
    XpColor { r: 0, g: 0, b: 0 }
}

/// Color 0xff00ff (hot pink), which is regarded as transparent.
pub open spec fn xp_transparent() -> XpColor {
    XpColor { r: 255, g: 0, b: 255 }
}

impl XpColor {
    /// Deepest black.
    pub fn black() -> (c: XpColor)
        ensures
            c == xp_black(),
    {
        XpColor { r: 0, g: 0, b: 0 }
    }

    /// Color 0xff00ff (hot pink), which is regarded as transparent.
    pub fn transparent() -> (c: XpColor)
        ensures
            c == xp_transparent(),
    {
        XpColor { r: 255, g: 0, b: 255 }
    }

    /// Return whether this color is considered transparent (if this is the
    /// background color of a cell, the layer below it will see through).
    pub fn is_transparent(self) -> (r: bool)
        ensures
            r == (self == xp_transparent()),
    {
        self == XpColor::transparent()
    }
}

/// Structure representing a character and its foreground/background color.
#[derive(Debug, Clone, Copy, PartialEq, Eq, Structural)]
pub struct XpCell {
    /// Character index. This depends on the font but will usually be a code
    /// page 437 character.
    pub ch: u32,
    /// Foreground color
    pub fg: XpColor,
    /// Background color
    pub bg: XpColor,
}

/// Structure representing a layer. Cells are in the same order as in the
/// file, in column-major order (the cell at x, y of the file is at
/// `x * height + y`).
#[derive(Debug, Clone, PartialEq)]
pub struct XpLayer {
    /// Width of layer (in cells)
    pub width: usize,
    /// Height of layer (in cells)
    pub height: usize,
    /// Content of layer
    pub cells: Vec<XpCell>,
}

impl XpLayer {
    /// Where the cell at (x, y), counted from the bottom left, is stored: the
    /// file counts rows from the top, so y is flipped.
    pub open spec fn cell_index(&self, x: int, y: int) -> int {
        x * self.height + (self.height - 1 - y)
    }

    /// Get the cell at coordinates (x,y), counted from the bottom left, or None
    /// if it is out of range.
    pub fn get(&self, x: usize, y: usize) -> (r: Option<&XpCell>)
        requires
            (x < self.width && y < self.height) ==> self.cell_index(x as int, y as int)
                < self.cells@.len(),
        ensures
            (x < self.width && y < self.height) ==> r == Some(
                &self.cells@[self.cell_index(x as int, y as int)],
            ),
            !(x < self.width && y < self.height) ==> r is None,
    {
        if x < self.width && y < self.height {
            // flip y
            let y = self.height - 1 - y;
            let n = self.cells.len();
            proof {
                assert(x * self.height + y < n);
                assert(0 <= x * self.height) by (nonlinear_arith)
                    requires
                        x >= 0,
                        self.height >= 0,
                ;
            }
            Some(&self.cells[x * self.height + y])
        } else {
            None
        }
    }
}

/// Structure representing a REXPaint image file, which is a stack of layers.
#[derive(Debug, Clone, PartialEq)]
pub struct XpFile {
    /// Version number from header
    pub version: i32,
    /// Layers of the image
    pub layers: Vec<XpLayer>,
}

/// `std::io::Error`, the error of reading the gzip stream, carried as an
/// opaque value.
#[verifier::external_type_specification]
#[verifier::external_body]
pub struct ExIoError(std::io::Error);

/// The bytes that gzip decompression of `data` yields before its stream ends
/// or fails, and whether it ended without failing.
pub uninterp spec fn gunzip(data: Seq<u8>) -> (Seq<u8>, bool);

/// Decompresses a gzip stream: `flate2::read::GzDecoder` read to its end with
/// `Read::read_to_end`, which keeps the bytes read before a failure.
///
/// Claims: the result is [gunzip] of the input: the bytes decompressed before
/// the stream ended or failed, and whether it ended without failing.
#[verifier::external_body]
fn gz_decompress(data: &[u8]) -> (r: (Vec<u8>, bool))
    ensures
        gunzip(data@) == (r.0@, r.1),
{
    let mut out = Vec::new();
    let ended = flate2::read::GzDecoder::new(data).read_to_end(&mut out).is_ok();
    (out, ended)
}

/// The unsigned integer of the four bytes from `pos` on, least significant first.
pub open spec fn le_u32(b: Seq<u8>, pos: int) -> u32 {
    (b[pos] as int + 0x100 * b[pos + 1] as int + 0x1_0000 * b[pos + 2] as int + 0x100_0000
        * b[pos + 3] as int) as u32
}

/// Calls `byteorder::LittleEndian::read_u32` on the four bytes from `pos` on.
///
/// Claims: the result is those bytes as an unsigned integer, least significant
/// byte first.
#[verifier::external_body]
fn read_u32_le(data: &[u8], pos: usize) -> (r: u32)
    requires
        pos + 4 <= data@.len(),
    ensures
        r == le_u32(data@, pos as int),
{
    LittleEndian::read_u32(&data[pos..])
}

/// Calls `byteorder::LittleEndian::read_i32` on the four bytes from `pos` on.
///
/// Claims: the result is those bytes as an unsigned integer, least significant
/// byte first, taken as a two's complement `i32`.
#[verifier::external_body]
fn read_i32_le(data: &[u8], pos: usize) -> (r: i32)
    requires
        pos + 4 <= data@.len(),
    ensures
        r == le_u32(data@, pos as int) as i32,
{
    LittleEndian::read_i32(&data[pos..])
}

/// Why an .xp file could not be read.
#[derive(Clone, Copy, Debug, PartialEq, Eq, Structural)]
pub enum XpError {
    /// The gzip stream could not be decompressed.
    Decompress,
    /// The decompressed data ends before the image does.
    UnexpectedEof,
}

/// A layer as plain values: its width, height and cells.
pub struct XpLayerView {
    pub width: nat,
    pub height: nat,
    pub cells: Seq<XpCell>,
}

/// The background color a cell gets: transparent hot pink is read as black.
pub open spec fn read_background(c: XpColor) -> XpColor {
    if c == xp_transparent() {
        xp_black()
    } else {
        c
    }
}

/// The cell whose ten bytes start at `pos`: the character as a little endian
/// `u32`, then the foreground and the background red, green and blue.
pub open spec fn cell_at(d: Seq<u8>, pos: int) -> XpCell {
    XpCell {
        ch: le_u32(d, pos),
        fg: XpColor { r: d[pos + 4], g: d[pos + 5], b: d[pos + 6] },
        bg: read_background(XpColor { r: d[pos + 7], g: d[pos + 8], b: d[pos + 9] }),
    }
}

/// The `n` layers from `pos` on: each a width and a height as little endian
/// `u32`s followed by `width * height` cells. `None` where the data ends first.
pub open spec fn parse_layers(d: Seq<u8>, pos: int, n: nat) -> Option<Seq<XpLayerView>>
    decreases n,
{
    if n == 0 {
        Some(seq![])
    } else if pos + 8 > d.len() {
        None
    } else {
        let w = le_u32(d, pos) as nat;
        let h = le_u32(d, pos + 4) as nat;
        let start = pos + 8;
        if start + 10 * (w * h) > d.len() {
            None
        } else {
            match parse_layers(d, start + 10 * (w * h), (n - 1) as nat) {
                None => None,
                Some(rest) => Some(
                    seq![
                        XpLayerView {
                            width: w,
                            height: h,
                            cells: Seq::new(w * h, |i: int| cell_at(d, start + 10 * i)),
                        },
                    ] + rest,
                ),
            }
        }
    }
}

/// The version and layers of decompressed .xp data: a little endian `i32`
/// version, a `u32` layer count, then the layers. `None` where the data ends
/// first.
pub open spec fn parse_xp(d: Seq<u8>) -> Option<(i32, Seq<XpLayerView>)> {
    if d.len() < 8 {
        None
    } else {
        match parse_layers(d, 8, le_u32(d, 4) as nat) {
            None => None,
            Some(ls) => Some((le_u32(d, 0) as i32, ls)),
        }
    }
}

impl XpLayer {
    /// The layer as plain values.
    pub open spec fn layer_view(&self) -> XpLayerView {
        XpLayerView { width: self.width as nat, height: self.height as nat, cells: self.cells@ }
    }
}

impl XpFile {
    /// The layers as plain values.
    pub open spec fn layer_views(&self) -> Seq<XpLayerView> {
        self.layers@.map_values(|l: XpLayer| l.layer_view())
    }

    /// Read an xp image from the bytes of a file: decompress them and parse
    /// the version, the layers and their cells. The image is read from the
    /// bytes that the gzip stream yields before it ends or fails; where they
    /// hold no whole image, the error is `Decompress` if the stream failed and
    /// `UnexpectedEof` if it ended.
    pub fn read(data: &[u8]) -> (r: Result<XpFile, XpError>)
        ensures
            ({
                let (d, ended) = gunzip(data@);
                match parse_xp(d) {
                    None => r == Err::<XpFile, XpError>(
                        if ended {
                            XpError::UnexpectedEof
                        } else {
                            XpError::Decompress
                        },
                    ),
                    Some((version, layers)) => r matches Ok(f) && f.version == version
                        && f.layer_views() == layers,
                }
            }),
    {
        let (d, ended) = gz_decompress(data);
        let fail = if ended {
            XpError::UnexpectedEof
        } else {
            XpError::Decompress
        };
        let n = d.len();
        if n < 8 {
            return Err(fail);
        }
        let version = read_i32_le(d.as_slice(), 0);
        let num_layers = read_u32_le(d.as_slice(), 4);
        let ghost total = parse_layers(d@, 8, num_layers as nat);
        let mut layers: Vec<XpLayer> = Vec::new();
        let mut pos: usize = 8;
        let mut k: u32 = 0;
        while k < num_layers
            invariant
                gunzip(data@) == (d@, ended),
                fail == (if ended {
                    XpError::UnexpectedEof
                } else {
                    XpError::Decompress
                }),
                n == d@.len(),
                n >= 8,
                num_layers == le_u32(d@, 4),
                version == le_u32(d@, 0) as i32,
                8 <= pos <= n,
                k <= num_layers,
                total == parse_layers(d@, 8, num_layers as nat),
                match parse_layers(d@, pos as int, (num_layers - k) as nat) {
                    None => total is None,
                    Some(rest) => total == Some(
                        layers@.map_values(|l: XpLayer| l.layer_view()) + rest,
                    ),
                },
            decreases num_layers - k,
        {
            if n - pos < 8 {
                return Err(fail);
            }
            let w32 = read_u32_le(d.as_slice(), pos);
            let h32 = read_u32_le(d.as_slice(), pos + 4);
            let width = w32 as usize;
            let height = h32 as usize;
            let start = pos + 8;
            proof {
                assert(w32 as u64 * h32 as u64 <= u32::MAX as u64 * u32::MAX as u64) by (nonlinear_arith);
            }
            let count = (w32 as u64) * (h32 as u64);
            let room = ((n - start) / 10) as u64;
            if room < count {
                return Err(fail);
            }
            let mut cells: Vec<XpCell> = Vec::new();
            let mut c: u64 = 0;
            let mut p = start;
            while c < count
                invariant
                    n == d@.len(),
                    c <= count,
                    p == start + 10 * c,
                    start + 10 * count <= n,
                    cells@ == Seq::new(c as nat, |i: int| cell_at(d@, start + 10 * i)),
                decreases count - c,
            {
                let ch = read_u32_le(d.as_slice(), p);
                let fg = XpColor { r: d[p + 4], g: d[p + 5], b: d[p + 6] };
                let bg = XpColor { r: d[p + 7], g: d[p + 8], b: d[p + 9] };
                let bg = if bg.is_transparent() {
                    XpColor::black()
                } else {
                    bg
                };
                cells.push(XpCell { ch, fg, bg });
                c = c + 1;
                p = p + 10;
                proof {
                    assert(cells@ =~= Seq::new(c as nat, |i: int| cell_at(d@, start + 10 * i)));
                }
            }
            let layer = XpLayer { width, height, cells };
            proof {
                assert(layers@.push(layer).map_values(|l: XpLayer| l.layer_view()) =~= layers@.map_values(
                    |l: XpLayer| l.layer_view(),
                ).push(layer.layer_view()));
            }
            layers.push(layer);
            pos = p;
            k = k + 1;
            proof {
                let ghost rest_after = parse_layers(d@, pos as int, (num_layers - k) as nat);
                if let Some(r2) = rest_after {
                    assert(layers@.map_values(|l: XpLayer| l.layer_view()) + r2 =~= layers@.drop_last().map_values(
                        |l: XpLayer| l.layer_view(),
                    ) + (seq![layer.layer_view()] + r2));
                }
            }
        }
        proof {
            assert(layers@.map_values(|l: XpLayer| l.layer_view()) + seq![] =~= layers@.map_values(
                |l: XpLayer| l.layer_view(),
            ));
        }
        Ok(XpFile { version, layers })
    }
}

} // verus!
