//! Decoded RGBA images and the Windows BMP codec.

use vstd::prelude::*;
use vstd::arithmetic::div_mod::*;
use vstd::arithmetic::mul::*;
use crate::skin::{ColorRgba, transparent_spec};

verus! {

/// Decoded RGBA image, pixels in row-major order (`y * width + x`).
#[derive(Debug, Clone)]
pub struct ImageBuffer {
    pub width: u32,
    pub height: u32,
    pub pixels: Vec<ColorRgba>,
}

impl ImageBuffer {
    /// The pixel vector holds exactly `width * height` pixels.
    pub open spec fn wf(&self) -> bool {
        self.pixels@.len() == self.width as int * self.height as int
    }
}

/// Little-endian 16-bit value at byte `i`.
pub open spec fn le_u16(d: Seq<u8>, i: int) -> int {
    d[i] as int + d[i + 1] as int * 256
}

/// Little-endian unsigned 32-bit value at byte `i`.
pub open spec fn le_u32(d: Seq<u8>, i: int) -> int {
    d[i] as int + d[i + 1] as int * 0x100 + d[i + 2] as int * 0x10000 + d[i + 3] as int * 0x1000000
}

/// Little-endian two's-complement 32-bit value at byte `i`.
pub open spec fn le_i32(d: Seq<u8>, i: int) -> int {
    let u = le_u32(d, i);
    if u >= 0x8000_0000 {
        u - 0x1_0000_0000
    } else {
        u
    }
}

pub open spec fn bmp_data_offset(d: Seq<u8>) -> int {
    le_u32(d, 10)
}

pub open spec fn bmp_dib_size(d: Seq<u8>) -> int {
    le_u32(d, 14)
}

pub open spec fn bmp_width(d: Seq<u8>) -> int {
    le_i32(d, 18)
}

pub open spec fn bmp_height_raw(d: Seq<u8>) -> int {
    le_i32(d, 22)
}

/// Number of rows; a negative stored height marks a top-down image.
pub open spec fn bmp_height(d: Seq<u8>) -> int {
    if bmp_height_raw(d) < 0 {
        -bmp_height_raw(d)
    } else {
        bmp_height_raw(d)
    }
}

pub open spec fn bmp_bpp(d: Seq<u8>) -> int {
    le_u16(d, 28)
}

/// The checks an uncompressed BMP passes before its pixels are read.
pub open spec fn bmp_header_ok(d: Seq<u8>) -> bool {
    &&& d.len() >= 54
    &&& d[0] == 66
    &&& d[1] == 77
    &&& bmp_width(d) > 0
    &&& bmp_height_raw(d) != 0
    &&& le_u16(d, 26) == 1
    &&& (bmp_bpp(d) == 1 || bmp_bpp(d) == 4 || bmp_bpp(d) == 8 || bmp_bpp(d) == 24 || bmp_bpp(d) == 32)
    &&& le_u32(d, 30) == 0
    &&& d.len() >= bmp_data_offset(d)
}

/// The pixel count of an accepted header fits in 32 bits (larger ones make the
/// decoder's pixel-count arithmetic overflow).
pub open spec fn bmp_size_fits(d: Seq<u8>) -> bool {
    bmp_header_ok(d) ==> bmp_width(d) * bmp_height(d) <= u32::MAX
}

pub open spec fn bmp_full_palette(bpp: int) -> int {
    if bpp == 1 {
        2
    } else if bpp == 4 {
        16
    } else {
        256
    }
}

/// Palette size: the header's "colours used" when it is in range, else `2^bpp`.
pub open spec fn bmp_num_colors(d: Seq<u8>) -> int {
    let used = le_u32(d, 46);
    if used > 0 && used <= bmp_full_palette(bmp_bpp(d)) {
        used
    } else {
        bmp_full_palette(bmp_bpp(d))
    }
}

pub open spec fn bmp_palette_offset(d: Seq<u8>) -> int {
    14 + bmp_dib_size(d)
}

pub open spec fn bmp_palette_in_file(d: Seq<u8>) -> bool {
    bmp_palette_offset(d) + bmp_num_colors(d) * 4 <= d.len()
}

pub open spec fn bmp_palette_len(d: Seq<u8>) -> int {
    if bmp_bpp(d) <= 8 {
        bmp_num_colors(d)
    } else {
        0
    }
}

/// Palette entry `i`: read from the file (BGRx order), or a grayscale ramp
/// when the palette block is truncated.
pub open spec fn bmp_palette_color(d: Seq<u8>, i: int) -> ColorRgba {
    if bmp_palette_in_file(d) {
        let e = bmp_palette_offset(d) + i * 4;
        ColorRgba { r: d[e + 2], g: d[e + 1], b: d[e], a: 255 }
    } else {
        let n1 = if bmp_num_colors(d) - 1 > 1 { bmp_num_colors(d) - 1 } else { 1 };
        let v = (i * 255 / n1) as u8;
        ColorRgba { r: v, g: v, b: v, a: 255 }
    }
}

pub open spec fn bmp_palette(d: Seq<u8>) -> Seq<ColorRgba> {
    Seq::new(bmp_palette_len(d) as nat, |i: int| bmp_palette_color(d, i))
}

/// Bytes per stored row, padded to a 4-byte boundary.
pub open spec fn bmp_stride(d: Seq<u8>) -> int {
    let w = bmp_width(d);
    let bpp = bmp_bpp(d);
    if bpp == 1 {
        ((w + 31) / 32) * 4
    } else if bpp == 4 {
        ((w * 4 + 31) / 32) * 4
    } else if bpp == 8 {
        ((w + 3) / 4) * 4
    } else if bpp == 24 {
        ((w * 3 + 3) / 4) * 4
    } else {
        w * 4
    }
}

pub open spec fn bmp_raw_len(d: Seq<u8>) -> int {
    d.len() - bmp_data_offset(d)
}

/// Stored row holding image row `y`.
pub open spec fn bmp_src_row(d: Seq<u8>, y: int) -> int {
    if bmp_height_raw(d) < 0 {
        y
    } else {
        bmp_height(d) - 1 - y
    }
}

pub open spec fn bmp_row_start(d: Seq<u8>, y: int) -> int {
    bmp_src_row(d, y) * bmp_stride(d)
}

/// Rows `0..=y` all start inside the pixel data; decoding stops at the first
/// row that does not, leaving it and every later row transparent.
pub open spec fn bmp_rows_ok(d: Seq<u8>, y: int) -> bool {
    forall|k: int| 0 <= k <= y ==> #[trigger] bmp_row_start(d, k) < bmp_raw_len(d)
}

/// Palette colour for an index, transparent when the index is past the palette.
pub open spec fn bmp_indexed(d: Seq<u8>, idx: int) -> ColorRgba {
    if idx < bmp_palette_len(d) {
        bmp_palette_color(d, idx)
    } else {
        transparent_spec()
    }
}

/// Pixel `x` of a stored row that starts at byte `rs` with `rl` bytes after it.
pub open spec fn bmp_row_pixel(d: Seq<u8>, rs: int, rl: int, x: int) -> ColorRgba {
    let bpp = bmp_bpp(d);
    if bpp == 1 {
        if x / 8 < rl {
            bmp_indexed(d, ((d[rs + x / 8] >> ((7 - x % 8) as u8)) & 1u8) as int)
        } else {
            transparent_spec()
        }
    } else if bpp == 4 {
        if x / 2 < rl {
            let byte = d[rs + x / 2];
            let nib = if x % 2 == 0 { (byte >> 4u8) & 0x0fu8 } else { byte & 0x0fu8 };
            bmp_indexed(d, nib as int)
        } else {
            transparent_spec()
        }
    } else if bpp == 8 {
        if x < rl {
            bmp_indexed(d, d[rs + x] as int)
        } else {
            transparent_spec()
        }
    } else if bpp == 24 {
        if x * 3 + 2 < rl {
            ColorRgba { r: d[rs + x * 3 + 2], g: d[rs + x * 3 + 1], b: d[rs + x * 3], a: 255 }
        } else {
            transparent_spec()
        }
    } else {
        if x * 4 + 3 < rl {
            ColorRgba {
                r: d[rs + x * 4 + 2],
                g: d[rs + x * 4 + 1],
                b: d[rs + x * 4],
                a: d[rs + x * 4 + 3],
            }
        } else {
            transparent_spec()
        }
    }
}

/// Pixel `(x, y)` of a decoded BMP.
pub open spec fn bmp_pixel(d: Seq<u8>, x: int, y: int) -> ColorRgba {
    if bmp_rows_ok(d, y) {
        bmp_row_pixel(
            d,
            bmp_data_offset(d) + bmp_row_start(d, y),
            bmp_raw_len(d) - bmp_row_start(d, y),
            x,
        )
    } else {
        transparent_spec()
    }
}

/// Pixel `(x, y)` of a row-major pixel sequence of width `w`.
pub open spec fn pixel_at(s: Seq<ColorRgba>, w: int, x: int, y: int) -> ColorRgba {
    s[y * w + x]
}

/// All pixels of a decoded BMP in row-major order.
pub open spec fn bmp_pixels(d: Seq<u8>) -> Seq<ColorRgba> {
    let w = bmp_width(d);
    Seq::new((w * bmp_height(d)) as nat, |i: int| bmp_pixel(d, i % w, i / w))
}

fn read_u16_le(d: &[u8], i: usize) -> (r: u16)
    requires
        i + 2 <= d@.len(),
    ensures
        r as int == le_u16(d@, i as int),
{
    d[i] as u16 + (d[i + 1] as u16) * 256
}

fn read_u32_le(d: &[u8], i: usize) -> (r: u32)
    requires
        i + 4 <= d@.len(),
    ensures
        r as int == le_u32(d@, i as int),
{
    d[i] as u32 + (d[i + 1] as u32) * 0x100 + (d[i + 2] as u32) * 0x10000 + (d[i + 3] as u32)
        * 0x1000000
}

fn read_i32_le(d: &[u8], i: usize) -> (r: i32)
    requires
        i + 4 <= d@.len(),
    ensures
        r as int == le_i32(d@, i as int),
{
    let u = read_u32_le(d, i);
    if u >= 0x8000_0000 {
        (u as i64 - 0x1_0000_0000i64) as i32
    } else {
        u as i32
    }
}

/// Builds the palette of an indexed-colour BMP (empty for 24/32-bit images).
fn build_bmp_palette(data: &[u8], bpp: u16) -> (palette: Vec<ColorRgba>)
    requires
        data@.len() >= 54,
        bpp as int == bmp_bpp(data@),
    ensures
        palette@ == bmp_palette(data@),
{
    let ghost d = data@;
    let mut palette: Vec<ColorRgba> = Vec::new();
    if bpp > 8 {
        assert(palette@ =~= bmp_palette(d));
        return palette;
    }
    let full: u64 = if bpp == 1 {
        2
    } else if bpp == 4 {
        16
    } else {
        256
    };
    let used = read_u32_le(data, 46) as u64;
    let num: u64 = if used > 0 && used <= full {
        used
    } else {
        full
    };
    assert(num == bmp_num_colors(d));
    let offset: u64 = 14 + read_u32_le(data, 14) as u64;
    let in_file = offset + num * 4 <= data.len() as u64;
    assert(in_file == bmp_palette_in_file(d));
    let len = data.len();
    let mut i: u64 = 0;
    while i < num
        invariant
            i <= num,
            len == d.len(),
            num == bmp_num_colors(d),
            1 <= num <= 256,
            bmp_palette_len(d) == num,
            offset == bmp_palette_offset(d),
            in_file == bmp_palette_in_file(d),
            data@ == d,
            palette@.len() == i,
            forall|k: int| 0 <= k < i ==> palette@[k] == bmp_palette_color(d, k),
        decreases num - i,
    {
        let c = if in_file {
            let e = (offset + i * 4) as usize;
            ColorRgba { r: data[e + 2], g: data[e + 1], b: data[e], a: 255 }
        } else {
            let n1: u64 = if num - 1 > 1 {
                num - 1
            } else {
                1
            };
            assert((i * 255) as int / (n1 as int) <= 255) by (nonlinear_arith)
                requires
                    i < num,
                    num <= 256,
                    n1 == (if num - 1 > 1 { num - 1 } else { 1 }),
            ;
            let v = (i * 255 / n1) as u8;
            ColorRgba { r: v, g: v, b: v, a: 255 }
        };
        palette.push(c);
        i = i + 1;
    }
    assert(palette@ =~= bmp_palette(d));
    palette
}

/// Decodes stored row pixels into `pixels[dst .. dst + width]`.
fn decode_bmp_row(
    data: &[u8],
    bpp: u16,
    width: u32,
    rs: usize,
    rl: u64,
    palette: &Vec<ColorRgba>,
    pixels: &mut Vec<ColorRgba>,
    dst: usize,
)
    requires
        bpp as int == bmp_bpp(data@),
        bpp == 1 || bpp == 4 || bpp == 8 || bpp == 24 || bpp == 32,
        palette@ == bmp_palette(data@),
        rs + rl == data@.len(),
        dst + width <= old(pixels)@.len(),
    ensures
        final(pixels)@.len() == old(pixels)@.len(),
        forall|i: int|
            0 <= i < final(pixels)@.len() && !(dst <= i < dst + width) ==> final(pixels)@[i]
                == old(pixels)@[i],
        forall|x: int|
            0 <= x < width ==> #[trigger] final(pixels)@[dst + x] == bmp_row_pixel(
                data@,
                rs as int,
                rl as int,
                x,
            ),
{
    let ghost d = data@;
    let ghost orig = pixels@;
    let len = data.len();
    let plen = pixels.len();
    let mut x: u32 = 0;
    while x < width
        invariant
            x <= width,
            len == d.len(),
            plen == orig.len(),
            bpp as int == bmp_bpp(d),
            bpp == 1 || bpp == 4 || bpp == 8 || bpp == 24 || bpp == 32,
            palette@ == bmp_palette(d),
            data@ == d,
            rs + rl == d.len(),
            dst + width <= orig.len(),
            pixels@.len() == orig.len(),
            forall|i: int|
                0 <= i < pixels@.len() && !(dst <= i < dst + x) ==> pixels@[i] == orig[i],
            forall|k: int| 0 <= k < x ==> #[trigger] pixels@[dst + k] == bmp_row_pixel(d, rs as int, rl as int, k),
        decreases width - x,
    {
        let xi = x as u64;
        let c: ColorRgba = if bpp == 1 {
            if xi / 8 < rl {
                let byte = data[rs + (xi / 8) as usize];
                let sh: u8 = (7 - (xi % 8)) as u8;
                let idx = (byte >> sh) & 1u8;
                if (idx as usize) < palette.len() {
                    palette[idx as usize]
                } else {
                    ColorRgba { r: 0, g: 0, b: 0, a: 0 }
                }
            } else {
                ColorRgba { r: 0, g: 0, b: 0, a: 0 }
            }
        } else if bpp == 4 {
            if xi / 2 < rl {
                let byte = data[rs + (xi / 2) as usize];
                let nib = if xi % 2 == 0 {
                    (byte >> 4u8) & 0x0fu8
                } else {
                    byte & 0x0fu8
                };
                if (nib as usize) < palette.len() {
                    palette[nib as usize]
                } else {
                    ColorRgba { r: 0, g: 0, b: 0, a: 0 }
                }
            } else {
                ColorRgba { r: 0, g: 0, b: 0, a: 0 }
            }
        } else if bpp == 8 {
            if xi < rl {
                let idx = data[rs + xi as usize];
                if (idx as usize) < palette.len() {
                    palette[idx as usize]
                } else {
                    ColorRgba { r: 0, g: 0, b: 0, a: 0 }
                }
            } else {
                ColorRgba { r: 0, g: 0, b: 0, a: 0 }
            }
        } else if bpp == 24 {
            if xi * 3 + 2 < rl {
                let p = rs + (xi * 3) as usize;
                ColorRgba { r: data[p + 2], g: data[p + 1], b: data[p], a: 255 }
            } else {
                ColorRgba { r: 0, g: 0, b: 0, a: 0 }
            }
        } else {
            if xi * 4 + 3 < rl {
                let p = rs + (xi * 4) as usize;
                ColorRgba { r: data[p + 2], g: data[p + 1], b: data[p], a: data[p + 3] }
            } else {
                ColorRgba { r: 0, g: 0, b: 0, a: 0 }
            }
        };
        assert(c == bmp_row_pixel(d, rs as int, rl as int, x as int));
        pixels.set(dst + x as usize, c);
        x = x + 1;
    }
}

proof fn lemma_grid_index(x: int, y: int, w: int, h: int)
    requires
        0 <= x < w,
        0 <= y < h,
    ensures
        0 <= y * w + x,
        y * w + x < w * h,
        y * w + w <= w * h,
        0 <= y * w,
{
    assert(0 <= y * w + x && y * w + x < w * h && y * w + w <= w * h && 0 <= y * w) by (nonlinear_arith)
        requires
            0 <= x < w,
            0 <= y < h,
    ;
}

proof fn lemma_grid_order(x1: int, y1: int, x2: int, y2: int, w: int)
    requires
        0 <= x1 < w,
        0 <= x2 < w,
        0 <= y1 < y2,
    ensures
        y1 * w + x1 < y2 * w,
        y1 * w + w <= y2 * w,
{
    assert(y1 * w + x1 < y2 * w && y1 * w + w <= y2 * w) by (nonlinear_arith)
        requires
            0 <= x1 < w,
            0 <= x2 < w,
            0 <= y1 < y2,
    ;
}

/// Decodes an uncompressed Windows BMP (1, 4, 8-bit paletted, 24 or 32-bit).
///
/// Returns `None` exactly when the header is rejected (see `bmp_header_ok`);
/// otherwise the image has the header's size and the pixels of `bmp_pixels`.
pub fn decode_bmp(data: &[u8]) -> (r: Option<ImageBuffer>)
    requires
        bmp_size_fits(data@),
    ensures
        r is Some <==> bmp_header_ok(data@),
        r matches Some(img) ==> {
            &&& img.width == bmp_width(data@)
            &&& img.height == bmp_height(data@)
            &&& img.pixels@ == bmp_pixels(data@)
        },
{
    let ghost d = data@;
    let len = data.len();
    if len < 54 {
        return None;
    }
    if data[0] != 66u8 || data[1] != 77u8 {
        return None;
    }
    let data_offset = read_u32_le(data, 10);
    let width_raw = read_i32_le(data, 18);
    let height_raw = read_i32_le(data, 22);
    if width_raw <= 0 || height_raw == 0 {
        return None;
    }
    let width = width_raw as u32;
    let top_down = height_raw < 0;
    let height: u32 = if top_down {
        (0i64 - height_raw as i64) as u32
    } else {
        height_raw as u32
    };
    let planes = read_u16_le(data, 26);
    if planes != 1 {
        return None;
    }
    let bpp = read_u16_le(data, 28);
    if bpp != 1 && bpp != 4 && bpp != 8 && bpp != 24 && bpp != 32 {
        return None;
    }
    let compression = read_u32_le(data, 30);
    if compression != 0 {
        return None;
    }
    if (len as u64) < data_offset as u64 {
        return None;
    }
    assert(bmp_header_ok(d));
    let palette = build_bmp_palette(data, bpp);

    let w = width as u64;
    let h = height as u64;
    assert(w * h <= u32::MAX);
    let total = (w * h) as usize;
    let mut pixels: Vec<ColorRgba> = Vec::new();
    while pixels.len() < total
        invariant
            total == w * h,
            pixels@.len() <= total,
            forall|i: int| 0 <= i < pixels@.len() ==> pixels@[i] == transparent_spec(),
        decreases total - pixels@.len(),
    {
        pixels.push(ColorRgba { r: 0, g: 0, b: 0, a: 0 });
    }

    let stride: u64 = if bpp == 1 {
        ((w + 31) / 32) * 4
    } else if bpp == 4 {
        ((w * 4 + 31) / 32) * 4
    } else if bpp == 8 {
        ((w + 3) / 4) * 4
    } else if bpp == 24 {
        ((w * 3 + 3) / 4) * 4
    } else {
        w * 4
    };
    assert(stride == bmp_stride(d));
    assert(stride <= 4 * w + 4);
    let raw_len: u64 = len as u64 - data_offset as u64;
    assert forall|xx: int, yy: int|
        0 <= xx < w && 0 <= yy < h implies #[trigger] pixel_at(pixels@, w as int, xx, yy) == transparent_spec() by {
        lemma_grid_index(xx, yy, w as int, h as int);
    }
    let mut ok = true;
    let mut y: u64 = 0;
    while y < h
        invariant
            data@ == d,
            len == d.len(),
            bmp_header_ok(d),
            w == bmp_width(d),
            w == width,
            h == bmp_height(d),
            w * h <= u32::MAX,
            total == w * h,
            top_down == (bmp_height_raw(d) < 0),
            bpp as int == bmp_bpp(d),
            bpp == 1 || bpp == 4 || bpp == 8 || bpp == 24 || bpp == 32,
            palette@ == bmp_palette(d),
            stride == bmp_stride(d),
            stride <= 4 * w + 4,
            raw_len == bmp_raw_len(d),
            data_offset == bmp_data_offset(d),
            y <= h,
            pixels@.len() == total,
            ok == (y == 0 || bmp_rows_ok(d, y - 1)),
            forall|xx: int, yy: int|
                0 <= xx < w && 0 <= yy < y ==> #[trigger] pixel_at(pixels@, w as int, xx, yy) == bmp_pixel(d, xx, yy),
            forall|xx: int, yy: int|
                0 <= xx < w && y <= yy < h ==> #[trigger] pixel_at(pixels@, w as int, xx, yy) == transparent_spec(),
        decreases h - y,
    {
        let ghost before = pixels@;
        let src_row: u64 = if top_down {
            y
        } else {
            h - 1 - y
        };
        proof {
            lemma_mul_upper_bound(src_row as int, h as int, stride as int, 4 * w + 4);
            assert((h as int) * (4 * w + 4) == 4 * (w * h) + 4 * h) by (nonlinear_arith);
        }
        let row_start: u64 = src_row * stride;
        assert(row_start == bmp_row_start(d, y as int));
        proof {
            lemma_grid_index(0, y as int, w as int, h as int);
        }
        let dst = (y * w) as usize;
        if ok && row_start < raw_len {
            assert(bmp_rows_ok(d, y as int)) by {
                assert forall|k: int| 0 <= k <= y implies #[trigger] bmp_row_start(d, k) < bmp_raw_len(d) by {
                    if k < y {
                        assert(bmp_rows_ok(d, y - 1));
                    }
                }
            }
            let rs = (data_offset as u64 + row_start) as usize;
            decode_bmp_row(data, bpp, width, rs, raw_len - row_start, &palette, &mut pixels, dst);
            assert forall|xx: int, yy: int|
                0 <= xx < w && 0 <= yy < y + 1 implies #[trigger] pixel_at(pixels@, w as int, xx, yy) == bmp_pixel(d, xx, yy) by {
                lemma_grid_index(xx, yy, w as int, h as int);
                if yy < y {
                    lemma_grid_order(xx, yy, 0, y as int, w as int);
                    assert(pixels@[yy * w + xx] == before[yy * w + xx]);
                    assert(pixel_at(before, w as int, xx, yy) == bmp_pixel(d, xx, yy));
                } else {
                    assert(pixels@[dst + xx] == bmp_row_pixel(d, rs as int, (raw_len - row_start) as int, xx));
                }
            }
            assert forall|xx: int, yy: int|
                0 <= xx < w && y + 1 <= yy < h implies #[trigger] pixel_at(pixels@, w as int, xx, yy) == transparent_spec() by {
                lemma_grid_order(0, y as int, xx, yy, w as int);
                lemma_grid_index(xx, yy, w as int, h as int);
                assert(pixels@[yy * w + xx] == before[yy * w + xx]);
                assert(pixel_at(before, w as int, xx, yy) == transparent_spec());
            }
        } else {
            ok = false;
            assert(!bmp_rows_ok(d, y as int));
            assert forall|xx: int, yy: int|
                0 <= xx < w && 0 <= yy < y + 1 implies #[trigger] pixel_at(pixels@, w as int, xx, yy) == bmp_pixel(d, xx, yy) by {
                if yy == y {
                    assert(!bmp_rows_ok(d, yy));
                }
            }
            assert forall|yy: int| y <= yy < h implies !bmp_rows_ok(d, yy) by {
                if bmp_rows_ok(d, yy) {
                    assert(bmp_row_start(d, y as int) < bmp_raw_len(d));
                }
            }
        }
        y = y + 1;
    }
    proof {
        assert forall|i: int| 0 <= i < total implies pixels@[i] == bmp_pixels(d)[i] by {
            lemma_fundamental_div_mod(i, w as int);
            let xx = i % (w as int);
            let yy = i / (w as int);
            lemma_mod_pos_bound(i, w as int);
            lemma_div_pos_is_pos(i, w as int);
            assert(yy < h) by (nonlinear_arith)
                requires
                    i == (w as int) * yy + xx,
                    0 <= xx,
                    i < w * h,
                    w > 0,
            ;
            assert(i == yy * w + xx) by (nonlinear_arith)
                requires i == (w as int) * yy + xx;
            assert(pixel_at(pixels@, w as int, xx, yy) == bmp_pixel(d, xx, yy));
        }
        assert(pixels@ =~= bmp_pixels(d));
    }
    Some(ImageBuffer { width, height, pixels })
}

/// The four little-endian bytes of `v`.
pub open spec fn le32_bytes(v: u32) -> Seq<u8> {
    seq![(v & 0xff) as u8, ((v >> 8u32) & 0xff) as u8, ((v >> 16u32) & 0xff) as u8, ((v >> 24u32) & 0xff) as u8]
}

/// The two little-endian bytes of `v`.
pub open spec fn le16_bytes(v: u16) -> Seq<u8> {
    seq![(v & 0xff) as u8, ((v >> 8u16) & 0xff) as u8]
}

/// Bytes per row of a 24-bit BMP of width `w`: `3 * w` padded to a multiple of 4.
pub open spec fn bmp24_stride(w: int) -> int {
    w * 3 + (4 - (w * 3) % 4) % 4
}

/// The 54-byte file and info header of a 24-bit BMP written for a `w` x `h` image.
pub open spec fn bmp24_header(w: u32, h: u32) -> Seq<u8> {
    let pix = bmp24_stride(w as int) * h;
    let total = 54 + pix;
    seq![66u8, 77u8] + le32_bytes((total % 0x1_0000_0000) as u32) + seq![0u8, 0u8, 0u8, 0u8]
        + le32_bytes(54) + le32_bytes(40) + le32_bytes(w) + le32_bytes(h) + le16_bytes(1)
        + le16_bytes(24) + le32_bytes(0) + le32_bytes((pix % 0x1_0000_0000) as u32)
        + le32_bytes(2835) + le32_bytes(2835) + le32_bytes(0) + le32_bytes(0)
}

/// Byte `j` of the pixel block: rows bottom-up, each pixel as B, G, R, then zero padding.
pub open spec fn bmp24_pixel_byte(px: Seq<ColorRgba>, w: int, h: int, j: int) -> u8 {
    let stride = bmp24_stride(w);
    let y = h - 1 - j / stride;
    let c = j % stride;
    if c < w * 3 {
        let p = px[y * w + c / 3];
        if c % 3 == 0 {
            p.b
        } else if c % 3 == 1 {
            p.g
        } else {
            p.r
        }
    } else {
        0
    }
}

/// The bytes `encode_bmp` writes for a `w` x `h` image with pixels `px`.
pub open spec fn bmp24_encoding(w: u32, h: u32, px: Seq<ColorRgba>) -> Seq<u8> {
    bmp24_header(w, h) + Seq::new(
        (bmp24_stride(w as int) * h) as nat,
        |j: int| bmp24_pixel_byte(px, w as int, h as int, j),
    )
}

fn push_u32_le(data: &mut Vec<u8>, v: u32)
    ensures
        final(data)@ == old(data)@ + le32_bytes(v),
{
    data.push((v & 0xff) as u8);
    data.push(((v >> 8u32) & 0xff) as u8);
    data.push(((v >> 16u32) & 0xff) as u8);
    data.push(((v >> 24u32) & 0xff) as u8);
    assert(data@ =~= old(data)@ + le32_bytes(v));
}

fn push_u16_le(data: &mut Vec<u8>, v: u16)
    ensures
        final(data)@ == old(data)@ + le16_bytes(v),
{
    data.push((v & 0xff) as u8);
    data.push(((v >> 8u16) & 0xff) as u8);
    assert(data@ =~= old(data)@ + le16_bytes(v));
}

proof fn lemma_stride_row_split(j: int, r: int, c: int, stride: int)
    requires
        stride > 0,
        0 <= c < stride,
        j == r * stride + c,
    ensures
        j / stride == r,
        j % stride == c,
{
    lemma_fundamental_div_mod_converse(j, stride, r, c);
}

/// Encodes an image as a 24-bit uncompressed Windows BMP, rows bottom-up.
pub fn encode_bmp(image: &ImageBuffer) -> (data: Vec<u8>)
    requires
        image.pixels@.len() >= image.width as int * image.height as int,
        image.width as int * 3 <= u32::MAX,
        bmp24_stride(image.width as int) <= usize::MAX,
        54 + bmp24_stride(image.width as int) * image.height <= usize::MAX,
    ensures
        data@ == bmp24_encoding(image.width, image.height, image.pixels@),
{
    let w = image.width;
    let h = image.height;
    let row_unpadded = (w * 3) as usize;
    let row_padding = (4 - (row_unpadded % 4)) % 4;
    let stride = row_unpadded + row_padding;
    assert(stride == bmp24_stride(w as int));
    assert(stride * h <= usize::MAX - 54);
    let pixel_len = stride * h as usize;
    let total = 54 + pixel_len;

    let mut data: Vec<u8> = Vec::new();
    data.push(66u8);
    data.push(77u8);
    push_u32_le(&mut data, (total as u64 % 0x1_0000_0000) as u32);
    data.push(0u8);
    data.push(0u8);
    data.push(0u8);
    data.push(0u8);
    push_u32_le(&mut data, 54);
    push_u32_le(&mut data, 40);
    push_u32_le(&mut data, w);
    push_u32_le(&mut data, h);
    push_u16_le(&mut data, 1);
    push_u16_le(&mut data, 24);
    push_u32_le(&mut data, 0);
    push_u32_le(&mut data, (pixel_len as u64 % 0x1_0000_0000) as u32);
    push_u32_le(&mut data, 2835);
    push_u32_le(&mut data, 2835);
    push_u32_le(&mut data, 0);
    push_u32_le(&mut data, 0);
    let ghost header = bmp24_header(w, h);
    assert(data@ =~= header);
    let ghost px = image.pixels@;
    let ghost body = Seq::new((stride * h) as nat, |j: int| bmp24_pixel_byte(px, w as int, h as int, j));

    let plen = image.pixels.len();
    let mut r: u32 = 0;
    while r < h
        invariant
            r <= h,
            plen == px.len(),
            w == image.width,
            h == image.height,
            px == image.pixels@,
            px.len() >= w * h,
            stride == bmp24_stride(w as int),
            stride == w * 3 + row_padding,
            row_padding < 4,
            stride * h <= usize::MAX - 54,
            header.len() == 54,
            body == Seq::new((stride * h) as nat, |j: int| bmp24_pixel_byte(px, w as int, h as int, j)),
            data@ == header + body.subrange(0, r * stride),
        decreases h - r,
    {
        let y = h - 1 - r;
        proof {
            lemma_mul_upper_bound(r as int + 1, h as int, stride as int, stride as int);
            assert((r as int + 1) * stride == r * stride + stride) by (nonlinear_arith);
            if w > 0 {
                lemma_grid_index(0, y as int, w as int, h as int);
            } else {
                assert(y * w == 0) by (nonlinear_arith)
                    requires w == 0;
            }
            assert(px.len() >= w * h);
            assert(y * w + w <= px.len());
        }
        let row_base = (y as usize) * (w as usize);
        let mut x: u32 = 0;
        while x < w
            invariant
                x <= w,
                r < h,
                y == h - 1 - r,
                row_base == y * w,
                row_base + w <= px.len(),
                plen == px.len(),
                w == image.width,
                h == image.height,
                px == image.pixels@,
                stride == bmp24_stride(w as int),
                stride == w * 3 + row_padding,
                r * stride + stride <= stride * h,
                stride * h <= usize::MAX - 54,
                header.len() == 54,
                body == Seq::new((stride * h) as nat, |j: int| bmp24_pixel_byte(px, w as int, h as int, j)),
                data@ == header + body.subrange(0, r * stride + x * 3),
            decreases w - x,
        {
            let p = image.pixels[row_base + x as usize];
            let ghost base = r * stride + x * 3;
            proof {
                assert forall|k: int| 0 <= k < 3 implies #[trigger] body[base + k] == (if k == 0 { p.b } else if k == 1 { p.g } else { p.r }) by {
                    lemma_stride_row_split(base + k, r as int, x * 3 + k, stride as int);
                    lemma_fundamental_div_mod_converse(x * 3 + k, 3, x as int, k);
                    assert(row_base + x == y * w + (x * 3 + k) / 3);
                }
                assert(body.subrange(0, base + 3) =~= body.subrange(0, base) + seq![body[base], body[base + 1], body[base + 2]]);
            }
            let ghost before = data@;
            data.push(p.b);
            data.push(p.g);
            data.push(p.r);
            assert(data@ =~= before + seq![p.b, p.g, p.r]);
            assert(data@ =~= header + body.subrange(0, r * stride + (x + 1) * 3));
            x = x + 1;
        }
        let mut k: usize = 0;
        while k < row_padding
            invariant
                k <= row_padding,
                row_padding < 4,
                r < h,
                stride == bmp24_stride(w as int),
                stride == w * 3 + row_padding,
                r * stride + stride <= stride * h,
                stride * h <= usize::MAX - 54,
                header.len() == 54,
                body == Seq::new((stride * h) as nat, |j: int| bmp24_pixel_byte(px, w as int, h as int, j)),
                data@ == header + body.subrange(0, r * stride + w * 3 + k),
            decreases row_padding - k,
        {
            let ghost j = r * stride + w * 3 + k;
            proof {
                lemma_stride_row_split(j, r as int, w * 3 + k, stride as int);
                assert(j < stride * h);
                assert(j % bmp24_stride(w as int) == w * 3 + k);
                assert(!(j % bmp24_stride(w as int) < w * 3));
                assert(body[j] == bmp24_pixel_byte(px, w as int, h as int, j));
                assert(body[j] == 0u8);
                assert(body.subrange(0, j + 1) =~= body.subrange(0, j) + seq![body[j]]);
            }
            data.push(0u8);
            assert(data@ =~= header + body.subrange(0, r * stride + w * 3 + k + 1));
            k = k + 1;
        }
        assert((r + 1) * stride == r * stride + w * 3 + row_padding) by (nonlinear_arith)
            requires stride == w * 3 + row_padding;
        r = r + 1;
    }
    assert(body.subrange(0, h * stride) =~= body) by {
        assert(h * stride == stride * h) by (nonlinear_arith);
    }
    data
}

proof fn lemma_le32_value(d: Seq<u8>, i: int, v: u32)
    requires
        0 <= i,
        i + 4 <= d.len(),
        d.subrange(i, i + 4) == le32_bytes(v),
    ensures
        le_u32(d, i) == v,
{
    let b = le32_bytes(v);
    assert(d[i] == b[0] && d[i + 1] == b[1] && d[i + 2] == b[2] && d[i + 3] == b[3]) by {
        assert(d.subrange(i, i + 4)[0] == d[i]);
        assert(d.subrange(i, i + 4)[1] == d[i + 1]);
        assert(d.subrange(i, i + 4)[2] == d[i + 2]);
        assert(d.subrange(i, i + 4)[3] == d[i + 3]);
    }
    assert((v & 0xff) < 256 && ((v >> 8u32) & 0xff) < 256 && ((v >> 16u32) & 0xff) < 256 && ((v
        >> 24u32) & 0xff) < 256) by (bit_vector);
    assert((v & 0xff) + ((v >> 8u32) & 0xff) * 0x100 + ((v >> 16u32) & 0xff) * 0x10000 + ((v
        >> 24u32) & 0xff) * 0x1000000 == v) by (bit_vector);
}

proof fn lemma_le16_value(d: Seq<u8>, i: int, v: u16)
    requires
        0 <= i,
        i + 2 <= d.len(),
        d.subrange(i, i + 2) == le16_bytes(v),
    ensures
        le_u16(d, i) == v,
{
    let b = le16_bytes(v);
    assert(d[i] == b[0] && d[i + 1] == b[1]) by {
        assert(d.subrange(i, i + 2)[0] == d[i]);
        assert(d.subrange(i, i + 2)[1] == d[i + 1]);
    }
    assert((v & 0xff) < 256 && ((v >> 8u16) & 0xff) < 256) by (bit_vector);
    assert((v & 0xff) + ((v >> 8u16) & 0xff) * 0x100 == v) by (bit_vector);
}

proof fn lemma_bmp24_header_fields(w: u32, h: u32, e: Seq<u8>)
    requires
        e.len() >= 54,
        e.subrange(0, 54) == bmp24_header(w, h),
    ensures
        e[0] == 66,
        e[1] == 77,
        le_u32(e, 10) == 54,
        le_u32(e, 14) == 40,
        le_u32(e, 18) == w,
        le_u32(e, 22) == h,
        le_u16(e, 26) == 1,
        le_u16(e, 28) == 24,
        le_u32(e, 30) == 0,
        le_u32(e, 46) == 0,
{
    let hd = bmp24_header(w, h);
    let pix = bmp24_stride(w as int) * h;
    let total = 54 + pix;
    let parts = seq![
        seq![66u8, 77u8],
        le32_bytes((total % 0x1_0000_0000) as u32),
        seq![0u8, 0u8, 0u8, 0u8],
        le32_bytes(54),
        le32_bytes(40),
        le32_bytes(w),
        le32_bytes(h),
        le16_bytes(1),
        le16_bytes(24),
        le32_bytes(0),
        le32_bytes((pix % 0x1_0000_0000) as u32),
    ];
    assert(hd.len() == 54);
    assert(e[0] == hd[0] && e[1] == hd[1]);
    assert(e.subrange(10, 14) =~= hd.subrange(10, 14));
    assert(e.subrange(14, 18) =~= hd.subrange(14, 18));
    assert(e.subrange(18, 22) =~= hd.subrange(18, 22));
    assert(e.subrange(22, 26) =~= hd.subrange(22, 26));
    assert(e.subrange(26, 28) =~= hd.subrange(26, 28));
    assert(e.subrange(28, 30) =~= hd.subrange(28, 30));
    assert(e.subrange(30, 34) =~= hd.subrange(30, 34));
    assert(e.subrange(46, 50) =~= hd.subrange(46, 50));
    assert(hd.subrange(10, 14) =~= le32_bytes(54));
    assert(hd.subrange(14, 18) =~= le32_bytes(40));
    assert(hd.subrange(18, 22) =~= le32_bytes(w));
    assert(hd.subrange(22, 26) =~= le32_bytes(h));
    assert(hd.subrange(26, 28) =~= le16_bytes(1));
    assert(hd.subrange(28, 30) =~= le16_bytes(24));
    assert(hd.subrange(30, 34) =~= le32_bytes(0));
    assert(hd.subrange(46, 50) =~= le32_bytes(0));
    lemma_le32_value(e, 10, 54);
    lemma_le32_value(e, 14, 40);
    lemma_le32_value(e, 18, w);
    lemma_le32_value(e, 22, h);
    lemma_le16_value(e, 26, 1);
    lemma_le16_value(e, 28, 24);
    lemma_le32_value(e, 30, 0);
    lemma_le32_value(e, 46, 0);
}

proof fn lemma_stride24(w: int)
    requires
        w >= 0,
    ensures
        ((w * 3 + 3) / 4) * 4 == bmp24_stride(w),
        bmp24_stride(w) >= w * 3,
{
    let u = w * 3;
    lemma_fundamental_div_mod(u, 4);
    let q = u / 4;
    let r = u % 4;
    lemma_mod_pos_bound(u, 4);
    if r == 0 {
        lemma_fundamental_div_mod_converse(u + 3, 4, q, 3);
        lemma_fundamental_div_mod_converse(4 - r, 4, 1, 0);
    } else {
        lemma_fundamental_div_mod_converse(u + 3, 4, q + 1, r - 1);
        lemma_fundamental_div_mod_converse(4 - r, 4, 0, 4 - r);
    }
}

/// Decoding the bytes that `encode_bmp` writes for an opaque image gives that
/// image back: same width, height and pixels.
#[verifier::rlimit(80)]
#[verifier::spinoff_prover]
pub proof fn lemma_bmp_encode_decode_roundtrip(w: u32, h: u32, px: Seq<ColorRgba>)
    requires
        1 <= w <= 0x7fff_ffff,
        1 <= h <= 0x7fff_ffff,
        w * h <= u32::MAX,
        px.len() == w * h,
        forall|i: int| 0 <= i < px.len() ==> (#[trigger] px[i]).a == 255,
    ensures
        bmp_header_ok(bmp24_encoding(w, h, px)),
        bmp_size_fits(bmp24_encoding(w, h, px)),
        bmp_width(bmp24_encoding(w, h, px)) == w,
        bmp_height(bmp24_encoding(w, h, px)) == h,
        bmp_pixels(bmp24_encoding(w, h, px)) == px,
{
    let e = bmp24_encoding(w, h, px);
    let stride = bmp24_stride(w as int);
    let body = Seq::new((stride * h) as nat, |j: int| bmp24_pixel_byte(px, w as int, h as int, j));
    lemma_stride24(w as int);
    assert(stride * h >= 0) by (nonlinear_arith)
        requires stride >= 0, h >= 0;
    assert(e.len() == 54 + stride * h);
    assert(e.subrange(0, 54) =~= bmp24_header(w, h));
    lemma_bmp24_header_fields(w, h, e);
    assert(bmp_header_ok(e));
    assert(bmp_stride(e) == stride);
    let hh = h as int;
    let ww = w as int;
    assert(stride >= 3);
    assert forall|i: int| 0 <= i < ww * hh implies #[trigger] bmp_pixels(e)[i] == px[i] by {
        lemma_fundamental_div_mod(i, ww);
        lemma_mod_pos_bound(i, ww);
        lemma_div_pos_is_pos(i, ww);
        let x = i % ww;
        let y = i / ww;
        assert(y < hh) by (nonlinear_arith)
            requires i == ww * y + x, 0 <= x, i < ww * hh, ww > 0;
        assert(i == y * ww + x) by (nonlinear_arith)
            requires i == ww * y + x;
        let sr = hh - 1 - y;
        assert(bmp_row_start(e, y) == sr * stride);
        assert(bmp_rows_ok(e, y)) by {
            assert forall|k: int| 0 <= k <= y implies #[trigger] bmp_row_start(e, k) < bmp_raw_len(e) by {
                assert((hh - 1 - k) * stride < stride * hh) by (nonlinear_arith)
                    requires 0 <= k, k < hh, stride > 0;
            }
        }
        let rs = 54 + sr * stride;
        let rl = stride * hh - sr * stride;
        assert(rl >= stride) by (nonlinear_arith)
            requires rl == stride * hh - sr * stride, sr == hh - 1 - y, 0 <= y, y < hh, stride >= 0;
        assert(x * 3 + 2 < rl);
        assert forall|k: int| 0 <= k < 3 implies #[trigger] e[rs + x * 3 + k] == (if k == 0 {
            px[i].b
        } else if k == 1 {
            px[i].g
        } else {
            px[i].r
        }) by {
            let j = sr * stride + x * 3 + k;
            assert(0 <= sr * stride) by (nonlinear_arith)
                requires sr >= 0, stride >= 0;
            assert(j < stride * hh) by (nonlinear_arith)
                requires j == sr * stride + x * 3 + k, x * 3 + k < stride, 0 <= sr, sr < hh, stride > 0, 0 <= x, 0 <= k;
            assert(e[rs + x * 3 + k] == body[j]);
            lemma_stride_row_split(j, sr, x * 3 + k, stride);
            lemma_fundamental_div_mod_converse(x * 3 + k, 3, x, k);
        }
        assert(e[rs + x * 3 + 0] == px[i].b);
        assert(e[rs + x * 3] == px[i].b);
        assert(e[rs + x * 3 + 1] == px[i].g);
        assert(e[rs + x * 3 + 2] == px[i].r);
        assert(bmp_pixel(e, x, y) == bmp_row_pixel(e, rs, rl, x));
    }
    assert(bmp_pixels(e) =~= px);
}

/// The raw frame the `png` crate decodes from `data`, with `EXPAND | STRIP_16`
/// transformations: width, height, output colour type (PNG code 0, 2, 3, 4 or 6),
/// the frame's byte count, and the output buffer.
pub uninterp spec fn png_frame_of(data: Seq<u8>) -> Option<(u32, u32, u8, usize, Seq<u8>)>;

/// The raw image the `jpeg-decoder` crate decodes from `data`: width, height,
/// pixel format (0 = L8, 1 = L16, 2 = RGB24, 3 = CMYK32) and sample bytes.
pub uninterp spec fn jpeg_image_of(data: Seq<u8>) -> Option<(u16, u16, u8, Seq<u8>)>;

/// A decoded PNG frame as the `png` crate hands it out.
pub struct PngFrame {
    pub width: u32,
    pub height: u32,
    pub color: u8,
    pub frame_size: usize,
    pub buf: Vec<u8>,
}

/// A decoded JPEG image as the `jpeg-decoder` crate hands it out.
pub struct JpegImage {
    pub width: u16,
    pub height: u16,
    pub format: u8,
    pub bytes: Vec<u8>,
}

/// Runs `png::Decoder` (`read_info`, `next_frame`, `output_color_type`) on
/// `data`. The contract says only that the result is the decoder's, named
/// `png_frame_of`; what a PNG decodes to is not restated here.
#[verifier::external_body]
fn png_read_frame(data: &[u8]) -> (r: Option<PngFrame>)
    ensures
        png_frame_of(data@) == (match r {
            Some(f) => Some((f.width, f.height, f.color, f.frame_size, f.buf@)),
            None => None,
        }),
{
    let mut decoder = png::Decoder::new(data);
    decoder.set_transformations(png::Transformations::EXPAND | png::Transformations::STRIP_16);
    let mut reader = decoder.read_info().ok()?;
    let mut buf = vec![0; reader.output_buffer_size()];
    let info = reader.next_frame(&mut buf).ok()?;
    let color = match reader.output_color_type().0 {
        png::ColorType::Grayscale => 0u8,
        png::ColorType::Rgb => 2u8,
        png::ColorType::Indexed => 3u8,
        png::ColorType::GrayscaleAlpha => 4u8,
        png::ColorType::Rgba => 6u8,
    };
    Some(PngFrame { width: info.width, height: info.height, color, frame_size: info.buffer_size(), buf })
}

/// Runs `jpeg_decoder::Decoder::decode` and then `Decoder::info` on `data`.
/// The contract says only that the result is the decoder's, named
/// `jpeg_image_of`; what a JPEG decodes to is not restated here.
#[verifier::external_body]
fn jpeg_read_image(data: &[u8]) -> (r: Option<JpegImage>)
    ensures
        jpeg_image_of(data@) == (match r {
            Some(j) => Some((j.width, j.height, j.format, j.bytes@)),
            None => None,
        }),
{
    let mut decoder = jpeg_decoder::Decoder::new(data);
    let bytes = decoder.decode().ok()?;
    let info = decoder.info()?;
    let format = match info.pixel_format {
        jpeg_decoder::PixelFormat::L8 => 0u8,
        jpeg_decoder::PixelFormat::L16 => 1u8,
        jpeg_decoder::PixelFormat::RGB24 => 2u8,
        jpeg_decoder::PixelFormat::CMYK32 => 3u8,
    };
    Some(JpegImage { width: info.width, height: info.height, format, bytes })
}

/// Pixels from PNG output samples of colour type `color`; `None` for a type
/// other than grayscale, RGB, grayscale+alpha or RGBA.
pub open spec fn png_pixels(color: u8, b: Seq<u8>) -> Option<Seq<ColorRgba>> {
    if color == 6 {
        Some(Seq::new(b.len() / 4, |i: int| ColorRgba { r: b[4 * i], g: b[4 * i + 1], b: b[4 * i + 2], a: b[4 * i + 3] }))
    } else if color == 2 {
        Some(Seq::new(b.len() / 3, |i: int| ColorRgba { r: b[3 * i], g: b[3 * i + 1], b: b[3 * i + 2], a: 255 }))
    } else if color == 0 {
        Some(Seq::new(b.len(), |i: int| ColorRgba { r: b[i], g: b[i], b: b[i], a: 255 }))
    } else if color == 4 {
        Some(Seq::new(b.len() / 2, |i: int| ColorRgba { r: b[2 * i], g: b[2 * i], b: b[2 * i], a: b[2 * i + 1] }))
    } else {
        None
    }
}

/// One CMYK channel converted to RGB: `(255 - v) * (255 - k) / 255`, rounded.
pub open spec fn cmyk_channel(v: u8, k: u8) -> u8 {
    (((255 - v) * (255 - k) * 2 + 255) / 510) as u8
}

/// Pixels from JPEG samples of the given format.
pub open spec fn jpeg_pixels(format: u8, b: Seq<u8>) -> Seq<ColorRgba> {
    if format == 2 {
        Seq::new(b.len() / 3, |i: int| ColorRgba { r: b[3 * i], g: b[3 * i + 1], b: b[3 * i + 2], a: 255 })
    } else if format == 0 {
        Seq::new(b.len(), |i: int| ColorRgba { r: b[i], g: b[i], b: b[i], a: 255 })
    } else if format == 1 {
        Seq::new(b.len() / 2, |i: int| ColorRgba { r: b[2 * i], g: b[2 * i], b: b[2 * i], a: 255 })
    } else {
        Seq::new(b.len() / 4, |i: int| ColorRgba {
            r: cmyk_channel(b[4 * i], b[4 * i + 3]),
            g: cmyk_channel(b[4 * i + 1], b[4 * i + 3]),
            b: cmyk_channel(b[4 * i + 2], b[4 * i + 3]),
            a: 255,
        })
    }
}

/// What `decode_png` returns for a decoded frame: the frame's pixels when
/// their count is `width * height`.
pub open spec fn png_image(frame: Option<(u32, u32, u8, usize, Seq<u8>)>) -> Option<(u32, u32, Seq<ColorRgba>)> {
    match frame {
        None => None,
        Some((w, h, color, size, buf)) => {
            let limit = if (size as int) < buf.len() { size as int } else { buf.len() as int };
            match png_pixels(color, buf.take(limit)) {
                None => None,
                Some(px) => if px.len() == w * h { Some((w, h, px)) } else { None },
            }
        },
    }
}

/// What `decode_jpeg` returns for a decoded image: its pixels when their
/// count is `width * height`.
pub open spec fn jpeg_image(img: Option<(u16, u16, u8, Seq<u8>)>) -> Option<(u32, u32, Seq<ColorRgba>)> {
    match img {
        None => None,
        Some((w, h, format, bytes)) => {
            let px = jpeg_pixels(format, bytes);
            if px.len() == w * h { Some((w as u32, h as u32, px)) } else { None }
        },
    }
}

/// Width, height and pixels of an image.
pub open spec fn image_view(img: ImageBuffer) -> (u32, u32, Seq<ColorRgba>) {
    (img.width, img.height, img.pixels@)
}

pub open spec fn opt_image_view(r: Option<ImageBuffer>) -> Option<(u32, u32, Seq<ColorRgba>)> {
    match r {
        Some(img) => Some(image_view(img)),
        None => None,
    }
}

/// What `decode_bmp` returns.
pub open spec fn bmp_image(d: Seq<u8>) -> Option<(u32, u32, Seq<ColorRgba>)> {
    if bmp_header_ok(d) {
        Some((bmp_width(d) as u32, bmp_height(d) as u32, bmp_pixels(d)))
    } else {
        None
    }
}

/// Converts PNG output samples to pixels.
pub fn png_samples_to_pixels(color: u8, b: &[u8]) -> (r: Option<Vec<ColorRgba>>)
    ensures
        png_pixels(color, b@) == (match r {
            Some(v) => Some(v@),
            None => None,
        }),
{
    let step: usize = if color == 6 {
        4
    } else if color == 2 {
        3
    } else if color == 0 {
        1
    } else if color == 4 {
        2
    } else {
        return None;
    };
    let blen = b.len();
    let n = blen / step;
    let mut out: Vec<ColorRgba> = Vec::new();
    let mut i: usize = 0;
    while i < n
        invariant
            i <= n,
            blen == b@.len(),
            n == b@.len() as int / step as int,
            step == (if color == 6 { 4usize } else if color == 2 { 3 } else if color == 0 { 1 } else { 2 }),
            color == 6 || color == 2 || color == 0 || color == 4,
            png_pixels(color, b@) is Some,
            out@ == png_pixels(color, b@).unwrap().take(i as int),
        decreases n - i,
    {
        proof {
            lemma_fundamental_div_mod(b@.len() as int, step as int);
            lemma_mod_pos_bound(b@.len() as int, step as int);
            assert(i * step + step <= b@.len()) by (nonlinear_arith)
                requires i < n, n == b@.len() as int / step as int, b@.len() as int == step * n + b@.len() as int % step as int, b@.len() as int % step as int >= 0, step > 0;
        }
        let p = i * step;
        let c = if color == 6 {
            ColorRgba { r: b[p], g: b[p + 1], b: b[p + 2], a: b[p + 3] }
        } else if color == 2 {
            ColorRgba { r: b[p], g: b[p + 1], b: b[p + 2], a: 255 }
        } else if color == 0 {
            ColorRgba { r: b[p], g: b[p], b: b[p], a: 255 }
        } else {
            ColorRgba { r: b[p], g: b[p], b: b[p], a: b[p + 1] }
        };
        out.push(c);
        proof {
            assert(out@ =~= png_pixels(color, b@).unwrap().take(i + 1));
        }
        i = i + 1;
    }
    assert(out@ =~= png_pixels(color, b@).unwrap());
    Some(out)
}

/// A decoded PNG frame as a plain value.
pub open spec fn png_frame_view(f: PngFrame) -> (u32, u32, u8, usize, Seq<u8>) {
    (f.width, f.height, f.color, f.frame_size, f.buf@)
}

/// The image of a decoded PNG frame: the pixels of its first `frame_size`
/// output bytes (at most the buffer), when the colour type is one the player
/// reads and their count is `width * height`.
pub fn png_frame_to_image(frame: PngFrame) -> (r: Option<ImageBuffer>)
    ensures
        opt_image_view(r) == png_image(Some(png_frame_view(frame))),
{
    let limit = if frame.frame_size < frame.buf.len() {
        frame.frame_size
    } else {
        frame.buf.len()
    };
    let bytes = slice_prefix(frame.buf.as_slice(), limit);
    let pixels = match png_samples_to_pixels(frame.color, bytes) {
        Some(p) => p,
        None => return None,
    };
    assert(frame.width as u64 * frame.height as u64 <= u64::MAX) by (nonlinear_arith)
        requires frame.width <= u32::MAX, frame.height <= u32::MAX;
    if pixels.len() as u64 == frame.width as u64 * frame.height as u64 {
        Some(ImageBuffer { width: frame.width, height: frame.height, pixels })
    } else {
        None
    }
}

/// Decodes a PNG image with the `png` crate and converts it to RGBA pixels.
pub fn decode_png(data: &[u8]) -> (r: Option<ImageBuffer>)
    ensures
        opt_image_view(r) == png_image(png_frame_of(data@)),
{
    match png_read_frame(data) {
        Some(f) => png_frame_to_image(f),
        None => None,
    }
}

fn slice_prefix(b: &[u8], n: usize) -> (r: &[u8])
    requires
        n <= b@.len(),
    ensures
        r@ == b@.take(n as int),
{
    let (head, _) = b.split_at(n);
    head
}

fn cmyk_channel_exec(v: u8, k: u8) -> (r: u8)
    ensures
        r == cmyk_channel(v, k),
{
    let a = (255 - v) as u32;
    let c = (255 - k) as u32;
    assert(a * c <= 65025) by (nonlinear_arith)
        requires a <= 255, c <= 255;
    ((a * c * 2 + 255) / 510) as u8
}

/// Converts JPEG samples to pixels.
pub fn jpeg_samples_to_pixels(format: u8, b: &[u8]) -> (r: Vec<ColorRgba>)
    ensures
        r@ == jpeg_pixels(format, b@),
{
    let step: usize = if format == 2 {
        3
    } else if format == 0 {
        1
    } else if format == 1 {
        2
    } else {
        4
    };
    let blen = b.len();
    let n = blen / step;
    let mut out: Vec<ColorRgba> = Vec::new();
    let mut i: usize = 0;
    while i < n
        invariant
            i <= n,
            blen == b@.len(),
            n == b@.len() as int / step as int,
            step == (if format == 2 { 3usize } else if format == 0 { 1 } else if format == 1 { 2 } else { 4 }),
            out@ == jpeg_pixels(format, b@).take(i as int),
        decreases n - i,
    {
        proof {
            lemma_fundamental_div_mod(b@.len() as int, step as int);
            lemma_mod_pos_bound(b@.len() as int, step as int);
            assert(i * step + step <= b@.len()) by (nonlinear_arith)
                requires i < n, n == b@.len() as int / step as int, b@.len() as int == step * n + b@.len() as int % step as int, b@.len() as int % step as int >= 0, step > 0;
        }
        let p = i * step;
        let c = if format == 2 {
            ColorRgba { r: b[p], g: b[p + 1], b: b[p + 2], a: 255 }
        } else if format == 0 {
            ColorRgba { r: b[p], g: b[p], b: b[p], a: 255 }
        } else if format == 1 {
            ColorRgba { r: b[p], g: b[p], b: b[p], a: 255 }
        } else {
            ColorRgba {
                r: cmyk_channel_exec(b[p], b[p + 3]),
                g: cmyk_channel_exec(b[p + 1], b[p + 3]),
                b: cmyk_channel_exec(b[p + 2], b[p + 3]),
                a: 255,
            }
        };
        out.push(c);
        proof {
            assert(out@ =~= jpeg_pixels(format, b@).take(i + 1));
        }
        i = i + 1;
    }
    assert(out@ =~= jpeg_pixels(format, b@));
    out
}

/// A decoded JPEG image as a plain value.
pub open spec fn jpeg_view(img: JpegImage) -> (u16, u16, u8, Seq<u8>) {
    (img.width, img.height, img.format, img.bytes@)
}

/// The image of decoded JPEG samples: their pixels (CMYK converted with exact
/// integer rounding) when their count is `width * height`.
pub fn jpeg_to_image(img: JpegImage) -> (r: Option<ImageBuffer>)
    ensures
        opt_image_view(r) == jpeg_image(Some(jpeg_view(img))),
{
    let pixels = jpeg_samples_to_pixels(img.format, img.bytes.as_slice());
    assert(img.width as u64 * img.height as u64 <= u64::MAX) by (nonlinear_arith)
        requires img.width <= u16::MAX, img.height <= u16::MAX;
    if pixels.len() as u64 == img.width as u64 * img.height as u64 {
        Some(ImageBuffer { width: img.width as u32, height: img.height as u32, pixels })
    } else {
        None
    }
}

/// Decodes a JPEG image with the `jpeg-decoder` crate and converts it to RGBA
/// pixels (CMYK is converted with exact integer rounding).
pub fn decode_jpeg(data: &[u8]) -> (r: Option<ImageBuffer>)
    ensures
        opt_image_view(r) == jpeg_image(jpeg_image_of(data@)),
{
    match jpeg_read_image(data) {
        Some(j) => jpeg_to_image(j),
        None => None,
    }
}

/// `data` starts with the PNG signature.
pub open spec fn has_png_magic(d: Seq<u8>) -> bool {
    d.len() >= 8 && d[0] == 0x89 && d[1] == 0x50 && d[2] == 0x4e && d[3] == 0x47 && d[4] == 0x0d
        && d[5] == 0x0a && d[6] == 0x1a && d[7] == 0x0a
}

/// `data` starts with a JPEG start-of-image marker.
pub open spec fn has_jpeg_magic(d: Seq<u8>) -> bool {
    d.len() >= 3 && d[0] == 0xff && d[1] == 0xd8 && d[2] == 0xff
}

/// `data` starts with `BM`.
pub open spec fn has_bmp_magic(d: Seq<u8>) -> bool {
    d.len() >= 2 && d[0] == 66 && d[1] == 77
}

/// What `ImageBuffer::from_bytes` returns: the format is chosen by magic bytes,
/// and anything unrecognised is tried as BMP.
pub open spec fn image_from_bytes(d: Seq<u8>) -> Option<(u32, u32, Seq<ColorRgba>)> {
    if has_bmp_magic(d) {
        bmp_image(d)
    } else if has_png_magic(d) {
        png_image(png_frame_of(d))
    } else if has_jpeg_magic(d) {
        jpeg_image(jpeg_image_of(d))
    } else {
        bmp_image(d)
    }
}

impl ImageBuffer {
    /// A `width` x `height` image filled with one colour.
    pub fn new(width: u32, height: u32, color: ColorRgba) -> (img: Self)
        requires
            width * height <= u32::MAX,
        ensures
            img.width == width,
            img.height == height,
            img.pixels@ == Seq::new((width * height) as nat, |i: int| color),
    {
        let total = (width as u64 * height as u64) as usize;
        let mut pixels: Vec<ColorRgba> = Vec::new();
        while pixels.len() < total
            invariant
                total == width * height,
                pixels@.len() <= total,
                forall|i: int| 0 <= i < pixels@.len() ==> pixels@[i] == color,
            decreases total - pixels@.len(),
        {
            pixels.push(color);
        }
        assert(pixels@ =~= Seq::new((width * height) as nat, |i: int| color));
        ImageBuffer { width, height, pixels }
    }

    /// Decodes an image, choosing the format by its magic bytes (BMP, PNG,
    /// JPEG) and falling back to BMP.
    pub fn from_bytes(data: &[u8]) -> (r: Option<Self>)
        requires
            bmp_size_fits(data@),
        ensures
            opt_image_view(r) == image_from_bytes(data@),
    {
        let len = data.len();
        if len >= 2 && data[0] == 66u8 && data[1] == 77u8 {
            return Self::from_bmp_bytes(data);
        }
        if len >= 8 && data[0] == 0x89u8 && data[1] == 0x50u8 && data[2] == 0x4eu8 && data[3]
            == 0x47u8 && data[4] == 0x0du8 && data[5] == 0x0au8 && data[6] == 0x1au8 && data[7]
            == 0x0au8 {
            return decode_png(data);
        }
        if len >= 3 && data[0] == 0xffu8 && data[1] == 0xd8u8 && data[2] == 0xffu8 {
            return decode_jpeg(data);
        }
        Self::from_bmp_bytes(data)
    }

    /// Decodes a PNG image.
    pub fn from_png_bytes(data: &[u8]) -> (r: Option<Self>)
        ensures
            opt_image_view(r) == png_image(png_frame_of(data@)),
    {
        decode_png(data)
    }

    /// Decodes a JPEG image.
    pub fn from_jpeg_bytes(data: &[u8]) -> (r: Option<Self>)
        ensures
            opt_image_view(r) == jpeg_image(jpeg_image_of(data@)),
    {
        decode_jpeg(data)
    }

    /// Decodes an uncompressed Windows BMP image.
    pub fn from_bmp_bytes(data: &[u8]) -> (r: Option<Self>)
        requires
            bmp_size_fits(data@),
        ensures
            opt_image_view(r) == bmp_image(data@),
    {
        let r = decode_bmp(data);
        proof {
            if bmp_header_ok(data@) {
                assert(0 < bmp_width(data@) < 0x8000_0000);
                assert(0 < bmp_height(data@) <= 0x8000_0000);
            }
        }
        r
    }

    /// Encodes this image as a 24-bit uncompressed Windows BMP.
    pub fn encode_bmp_bytes(&self) -> (data: Vec<u8>)
        requires
            self.pixels@.len() >= self.width as int * self.height as int,
            self.width as int * 3 <= u32::MAX,
            bmp24_stride(self.width as int) <= usize::MAX,
            54 + bmp24_stride(self.width as int) * self.height <= usize::MAX,
        ensures
            data@ == bmp24_encoding(self.width, self.height, self.pixels@),
    {
        encode_bmp(self)
    }

    /// The pixels as a flat `R, G, B, A` byte sequence.
    pub fn to_raw_rgba_bytes(&self) -> (raw: Vec<u8>)
        requires
            self.pixels@.len() * 4 <= usize::MAX,
        ensures
            raw@.len() == self.pixels@.len() * 4,
            forall|i: int|
                0 <= i < self.pixels@.len() ==> {
                    &&& raw@[4 * i] == (#[trigger] self.pixels@[i]).r
                    &&& raw@[4 * i + 1] == self.pixels@[i].g
                    &&& raw@[4 * i + 2] == self.pixels@[i].b
                    &&& raw@[4 * i + 3] == self.pixels@[i].a
                },
    {
        let mut raw: Vec<u8> = Vec::new();
        let n = self.pixels.len();
        let mut i: usize = 0;
        while i < n
            invariant
                i <= n,
                n == self.pixels@.len(),
                n * 4 <= usize::MAX,
                raw@.len() == i * 4,
                forall|k: int|
                    0 <= k < i ==> {
                        &&& raw@[4 * k] == (#[trigger] self.pixels@[k]).r
                        &&& raw@[4 * k + 1] == self.pixels@[k].g
                        &&& raw@[4 * k + 2] == self.pixels@[k].b
                        &&& raw@[4 * k + 3] == self.pixels@[k].a
                    },
            decreases n - i,
        {
            let p = self.pixels[i];
            raw.push(p.r);
            raw.push(p.g);
            raw.push(p.b);
            raw.push(p.a);
            i = i + 1;
        }
        raw
    }
}

/// Nearest source coordinate for destination coordinate `d` when scaling a
/// length `src_len` to `dst_len`: `d * src_len / dst_len`, at most `src_len - 1`.
pub open spec fn scaled_coord(dst_len: int, src_len: int, d: int) -> int {
    let s = d * src_len / dst_len;
    if s < src_len - 1 {
        s
    } else {
        src_len - 1
    }
}

/// Pixel `(x, y)` of the nearest-neighbour scaling of a `w` x `h` image.
pub open spec fn scaled_pixel(px: Seq<ColorRgba>, w: int, h: int, dw: int, dh: int, x: int, y: int) -> ColorRgba {
    px[scaled_coord(dh, h, y) * w + scaled_coord(dw, w, x)]
}

fn scaled_coord_exec(dst_len: u32, src_len: u32, d: u32) -> (r: u32)
    requires
        dst_len > 0,
        src_len > 0,
        d < dst_len,
    ensures
        r == scaled_coord(dst_len as int, src_len as int, d as int),
        r < src_len,
{
    assert((d as u64) * (src_len as u64) <= u64::MAX) by (nonlinear_arith)
        requires d <= u32::MAX, src_len <= u32::MAX;
    let s = (d as u64 * src_len as u64) / dst_len as u64;
    if s < src_len as u64 - 1 {
        s as u32
    } else {
        src_len - 1
    }
}

impl ImageBuffer {
    /// A nearest-neighbour scaled copy of `dst_w` x `dst_h` pixels; a
    /// transparent image when either size is zero.
    ///
    /// Source coordinates are computed exactly in integers.
    pub fn create_scaled(&self, dst_w: u32, dst_h: u32) -> (img: Self)
        requires
            self.wf(),
            dst_w * dst_h <= u32::MAX,
        ensures
            img.width == dst_w,
            img.height == dst_h,
            img.wf(),
            (dst_w == 0 || dst_h == 0 || self.width == 0 || self.height == 0) ==> img.pixels@ == Seq::new(
                (dst_w * dst_h) as nat,
                |i: int| transparent_spec(),
            ),
            !(dst_w == 0 || dst_h == 0 || self.width == 0 || self.height == 0) ==> forall|x: int, y: int|
                0 <= x < dst_w && 0 <= y < dst_h ==> #[trigger] pixel_at(img.pixels@, dst_w as int, x, y)
                    == scaled_pixel(self.pixels@, self.width as int, self.height as int, dst_w as int, dst_h as int, x, y),
    {
        if dst_w == 0 || dst_h == 0 || self.width == 0 || self.height == 0 {
            return Self::new(dst_w, dst_h, ColorRgba { r: 0, g: 0, b: 0, a: 0 });
        }
        let w = self.width;
        let h = self.height;
        let ghost px = self.pixels@;
        let plen = self.pixels.len();
        let mut pixels: Vec<ColorRgba> = Vec::new();
        let mut dy: u32 = 0;
        while dy < dst_h
            invariant
                dy <= dst_h,
                plen == px.len(),
                dst_w > 0,
                w > 0,
                h > 0,
                w == self.width,
                h == self.height,
                px == self.pixels@,
                px.len() == w * h,
                dst_w * dst_h <= u32::MAX,
                pixels@.len() == dy * dst_w,
                forall|x: int, y: int|
                    0 <= x < dst_w && 0 <= y < dy ==> #[trigger] pixel_at(pixels@, dst_w as int, x, y)
                        == scaled_pixel(px, w as int, h as int, dst_w as int, dst_h as int, x, y),
            decreases dst_h - dy,
        {
            let sy = scaled_coord_exec(dst_h, h, dy);
            proof {
                lemma_grid_index(0, sy as int, w as int, h as int);
            }
            let row = (sy as usize) * (w as usize);
            let ghost before = pixels@;
            let mut dx: u32 = 0;
            while dx < dst_w
                invariant
                    dx <= dst_w,
                    dy < dst_h,
                    dst_w > 0,
                    w > 0,
                    plen == px.len(),
                    w == self.width,
                    h == self.height,
                    px == self.pixels@,
                    px.len() == w * h,
                    sy < h,
                    sy == scaled_coord(dst_h as int, h as int, dy as int),
                    row == sy * w,
                    row + w <= px.len(),
                    pixels@.len() == dy * dst_w + dx,
                    pixels@.subrange(0, dy * dst_w) == before,
                    before.len() == dy * dst_w,
                    forall|x: int| 0 <= x < dx ==> #[trigger] pixels@[dy * dst_w + x]
                        == scaled_pixel(px, w as int, h as int, dst_w as int, dst_h as int, x, dy as int),
                decreases dst_w - dx,
            {
                let sx = scaled_coord_exec(dst_w, w, dx);
                let p = self.pixels[row + sx as usize];
                let ghost prev = pixels@;
                pixels.push(p);
                assert(pixels@.subrange(0, dy * dst_w) =~= prev.subrange(0, dy * dst_w));
                assert forall|x: int| 0 <= x < dx + 1 implies #[trigger] pixels@[dy * dst_w + x]
                    == scaled_pixel(px, w as int, h as int, dst_w as int, dst_h as int, x, dy as int) by {
                    if x < dx {
                        assert(pixels@[dy * dst_w + x] == prev[dy * dst_w + x]);
                    }
                }
                dx = dx + 1;
            }
            proof {
                assert forall|x: int, y: int|
                    0 <= x < dst_w && 0 <= y < dy + 1 implies #[trigger] pixel_at(pixels@, dst_w as int, x, y)
                        == scaled_pixel(px, w as int, h as int, dst_w as int, dst_h as int, x, y) by {
                    if y < dy {
                        lemma_grid_order(x, y, 0, dy as int, dst_w as int);
                        assert(pixels@[y * dst_w + x] == pixels@.subrange(0, dy * dst_w)[y * dst_w + x]);
                        assert(pixel_at(before, dst_w as int, x, y) == scaled_pixel(px, w as int, h as int, dst_w as int, dst_h as int, x, y));
                    }
                }
                assert(pixels@.len() == (dy + 1) * dst_w) by (nonlinear_arith)
                    requires pixels@.len() == dy * dst_w + dst_w;
            }
            dy = dy + 1;
        }
        assert(pixels@.len() == dst_w * dst_h) by (nonlinear_arith)
            requires pixels@.len() == dy * dst_w, dy == dst_h;
        ImageBuffer { width: dst_w, height: dst_h, pixels }
    }
}


/// RGB samples with an opaque alpha sample (255) after each whole triple; a
/// trailing partial triple is dropped.
pub open spec fn with_opaque_alpha(b: Seq<u8>) -> Seq<u8> {
    Seq::new(
        ((b.len() / 3) * 4) as nat,
        |j: int| if j % 4 == 3 { 255u8 } else { b[(j / 4) * 3 + j % 4] },
    )
}

/// An RGB PNG frame's samples become pixels in sample order: pixel `i` is
/// red `b[3i]`, green `b[3i + 1]`, blue `b[3i + 2]`, fully opaque, one pixel
/// per whole triple. The same samples give the same pixels as JPEG RGB
/// samples do, and as the RGBA samples that carry an opaque alpha after each
/// triple.
pub proof fn lemma_png_rgb_sample_order(b: Seq<u8>)
    ensures
        png_pixels(2, b) is Some,
        png_pixels(2, b).unwrap().len() == b.len() / 3,
        forall|i: int| 0 <= i < b.len() / 3 ==> {
            let px = #[trigger] png_pixels(2, b).unwrap()[i];
            &&& px.r == b[3 * i]
            &&& px.g == b[3 * i + 1]
            &&& px.b == b[3 * i + 2]
            &&& px.a == 255
        },
        png_pixels(2, b) == Some(jpeg_pixels(2, b)),
        png_pixels(6, with_opaque_alpha(b)) == png_pixels(2, b),
{
    let n = b.len() / 3;
    let a = with_opaque_alpha(b);
    assert(a.len() / 4 == n);
    let p6 = png_pixels(6, a).unwrap();
    let p2 = png_pixels(2, b).unwrap();
    assert forall|i: int| 0 <= i < n implies #[trigger] p6[i] == p2[i] by {
        assert((4 * i) / 4 == i && (4 * i) % 4 == 0) by (nonlinear_arith);
        assert((4 * i + 1) / 4 == i && (4 * i + 1) % 4 == 1) by (nonlinear_arith);
        assert((4 * i + 2) / 4 == i && (4 * i + 2) % 4 == 2) by (nonlinear_arith);
        assert((4 * i + 3) / 4 == i && (4 * i + 3) % 4 == 3) by (nonlinear_arith);
        assert(4 * i + 3 < a.len()) by (nonlinear_arith)
            requires a.len() == n * 4, i < n;
    }
    assert(p6 =~= p2);
    assert(png_pixels(2, b).unwrap() =~= jpeg_pixels(2, b));
}

/// A decoded 8-bit RGB PNG frame whose output bytes hold exactly three
/// samples per pixel is read as a `width` x `height` image whose pixel `i`
/// is red, green and blue from samples `3i`, `3i + 1`, `3i + 2`, opaque.
pub proof fn lemma_png_rgb_frame(w: u32, h: u32, size: usize, buf: Seq<u8>)
    requires
        3 * (w * h) == (if (size as int) < buf.len() { size as int } else { buf.len() as int }),
    ensures
        ({
            let r = png_image(Some((w, h, 2u8, size, buf)));
            &&& r is Some
            &&& r.unwrap().0 == w
            &&& r.unwrap().1 == h
            &&& r.unwrap().2.len() == w * h
            &&& forall|i: int| 0 <= i < w * h ==> {
                let px = #[trigger] r.unwrap().2[i];
                &&& px.r == buf[3 * i]
                &&& px.g == buf[3 * i + 1]
                &&& px.b == buf[3 * i + 2]
                &&& px.a == 255
            }
        }),
{
    let limit = if (size as int) < buf.len() { size as int } else { buf.len() as int };
    let t = buf.take(limit);
    lemma_png_rgb_sample_order(t);
    assert(t.len() / 3 == w * h);
}


/// PNG output samples become pixels one whole group of samples at a time,
/// in sample order: RGBA samples give red, green, blue and alpha; grayscale
/// samples give a grey pixel, fully opaque; grayscale+alpha samples give a
/// grey pixel with the second sample as alpha. Any other colour type gives no
/// pixels. Grayscale samples give the same pixels as 8-bit JPEG luma does.
pub proof fn lemma_png_sample_layout(color: u8, b: Seq<u8>)
    ensures
        color == 6 ==> png_pixels(color, b) is Some && png_pixels(color, b).unwrap().len() == b.len() / 4
            && forall|i: int| 0 <= i < b.len() / 4 ==> {
                let px = #[trigger] png_pixels(color, b).unwrap()[i];
                &&& px.r == b[4 * i]
                &&& px.g == b[4 * i + 1]
                &&& px.b == b[4 * i + 2]
                &&& px.a == b[4 * i + 3]
            },
        color == 0 ==> png_pixels(color, b) is Some && png_pixels(color, b).unwrap().len() == b.len()
            && forall|i: int| 0 <= i < b.len() ==> {
                let px = #[trigger] png_pixels(color, b).unwrap()[i];
                &&& px.r == b[i]
                &&& px.g == b[i]
                &&& px.b == b[i]
                &&& px.a == 255
            },
        color == 4 ==> png_pixels(color, b) is Some && png_pixels(color, b).unwrap().len() == b.len() / 2
            && forall|i: int| 0 <= i < b.len() / 2 ==> {
                let px = #[trigger] png_pixels(color, b).unwrap()[i];
                &&& px.r == b[2 * i]
                &&& px.g == b[2 * i]
                &&& px.b == b[2 * i]
                &&& px.a == b[2 * i + 1]
            },
        color != 0 && color != 2 && color != 4 && color != 6 ==> png_pixels(color, b) is None,
        png_pixels(0, b) == Some(jpeg_pixels(0, b)),
{
    assert(png_pixels(0, b).unwrap() =~= jpeg_pixels(0, b));
}

/// A CMYK sample pair converts to the channel value nearest to
/// `(255 - v) * (255 - k) / 255`: off by at most one half.
pub proof fn lemma_cmyk_rounding(v: u8, k: u8)
    ensures
        2 * (255 * cmyk_channel(v, k) - (255 - v) * (255 - k)) <= 255,
        2 * ((255 - v) * (255 - k) - 255 * cmyk_channel(v, k)) <= 255,
{
    let p: int = (255 - v) * (255 - k);
    assert(0 <= p <= 65025) by (nonlinear_arith)
        requires p == (255 - v) * (255 - k), v <= 255, k <= 255;
    let q: int = (p * 2 + 255) / 510;
    assert(q <= 255);
    assert(cmyk_channel(v, k) == q);
    assert(2 * (255 * q - p) <= 255 && 2 * (p - 255 * q) <= 255) by (nonlinear_arith)
        requires q == (p * 2 + 255) / 510, p >= 0;
}

} // verus!
