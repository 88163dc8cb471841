//! Pixels as bytes, for the image encoders.

use vstd::prelude::*;
use crate::color::Color;
use crate::grid::{Pixels, pixels};
use crate::tools::ExportFormat;

verus! {

/// How an image is written in a given format.
#[derive(Clone, Copy, Debug, PartialEq, Eq, Structural)]
pub enum Encoding {
    /// As a PNG image.
    Png,
    /// As a JPEG image, without alpha.
    Jpeg,
    /// As a bitmap of 24 bits a pixel.
    Bmp,
    /// As an SVG drawing of one square for each pixel with alpha.
    Svg,
    /// As a style sheet.
    Css,
    /// As bare bytes: red, green and blue of every pixel, row by row.
    RawRgb,
}

/// How an image is written in a given format.
pub open spec fn encoding_of(format: ExportFormat) -> Encoding {
    match format {
        ExportFormat::PNG => Encoding::Png,
        ExportFormat::JPG => Encoding::Jpeg,
        ExportFormat::JPEG => Encoding::Jpeg,
        ExportFormat::BMP => Encoding::Bmp,
        ExportFormat::SVG => Encoding::Svg,
        ExportFormat::CSS => Encoding::Css,
        _ => Encoding::RawRgb,
    }
}

/// How an image is written in a given format: the formats without an
/// encoder of their own are written as bare bytes.
pub fn encoding_for(format: ExportFormat) -> (e: Encoding)
    ensures
        e == encoding_of(format),
{
    match format {
        ExportFormat::PNG => Encoding::Png,
        ExportFormat::JPG => Encoding::Jpeg,
        ExportFormat::JPEG => Encoding::Jpeg,
        ExportFormat::BMP => Encoding::Bmp,
        ExportFormat::SVG => Encoding::Svg,
        ExportFormat::CSS => Encoding::Css,
        _ => Encoding::RawRgb,
    }
}

/// The bytes of a row: red, green, blue and alpha of every pixel, left to
/// right.
pub open spec fn row_bytes(row: Seq<Color>) -> Seq<u8>
    decreases row.len(),
{
    if row.len() == 0 {
        Seq::empty()
    } else {
        row_bytes(row.drop_last()) + seq![row.last().r, row.last().g, row.last().b, row.last().a]
    }
}

/// The bytes of a grid: those of its rows, top to bottom.
pub open spec fn grid_bytes(p: Pixels) -> Seq<u8>
    decreases p.len(),
{
    if p.len() == 0 {
        Seq::empty()
    } else {
        grid_bytes(p.drop_last()) + row_bytes(p.last())
    }
}

/// A row of `n` pixels has `4 n` bytes.
pub proof fn row_bytes_len(row: Seq<Color>)
    ensures
        row_bytes(row).len() == 4 * row.len(),
    decreases row.len(),
{
    if row.len() > 0 {
        row_bytes_len(row.drop_last());
    }
}

/// The bytes of a grid, four a pixel, row by row.
pub fn image_bytes(grid: &Vec<Vec<Color>>) -> (bytes: Vec<u8>)
    ensures
        bytes@ == grid_bytes(pixels(*grid)),
{
    let ghost p = pixels(*grid);
    let mut bytes: Vec<u8> = Vec::new();
    let mut y: usize = 0;
    while y < grid.len()
        invariant
            y <= grid.len(),
            p == pixels(*grid),
            bytes@ == grid_bytes(p.subrange(0, y as int)),
        decreases grid.len() - y,
    {
        let ghost above = bytes@;
        let row = &grid[y];
        let mut x: usize = 0;
        while x < row.len()
            invariant
                x <= row.len(),
                row@ == p[y as int],
                bytes@ == above + row_bytes(row@.subrange(0, x as int)),
            decreases row.len() - x,
        {
            let c = row[x];
            let ghost so_far = row@.subrange(0, x as int);
            let ghost longer = row@.subrange(0, x + 1);
            bytes.push(c.r);
            bytes.push(c.g);
            bytes.push(c.b);
            bytes.push(c.a);
            proof {
                assert(longer.drop_last() =~= so_far);
                assert(longer.last() == c);
                assert(bytes@ =~= above + row_bytes(longer));
            }
            x += 1;
        }
        proof {
            assert(row@.subrange(0, row.len() as int) =~= row@);
            let rows = p.subrange(0, y + 1);
            assert(rows.drop_last() =~= p.subrange(0, y as int));
            assert(rows.last() == p[y as int]);
        }
        y += 1;
    }
    assert(p.subrange(0, grid.len() as int) =~= p);
    bytes
}

/// The bytes of an image without every fourth: red, green and blue of
/// every pixel.
pub open spec fn without_alpha(data: Seq<u8>) -> Seq<u8> {
    Seq::new((data.len() / 4 * 3) as nat, |i: int| data[i / 3 * 4 + i % 3])
}

/// The image's bytes without the alpha of every pixel.
pub fn raw_rgb(image_data: &Vec<u8>) -> (bytes: Vec<u8>)
    requires
        image_data.len() % 4 == 0,
    ensures
        bytes@ == without_alpha(image_data@),
{
    let mut bytes: Vec<u8> = Vec::new();
    let count = image_data.len() / 4;
    let mut k: usize = 0;
    while k < count
        invariant
            k <= count,
            count == image_data.len() / 4,
            image_data.len() % 4 == 0,
            bytes.len() == 3 * k,
            forall|i: int| 0 <= i < 3 * k ==> #[trigger] bytes[i] == image_data[i / 3 * 4 + i % 3],
        decreases count - k,
    {
        let ghost before = bytes@;
        bytes.push(image_data[4 * k]);
        bytes.push(image_data[4 * k + 1]);
        bytes.push(image_data[4 * k + 2]);
        proof {
            assert forall|i: int| 0 <= i < 3 * (k + 1) implies #[trigger] bytes[i] == image_data[i
                / 3 * 4 + i % 3] by {
                if i < 3 * k {
                    assert(bytes[i] == before[i]);
                } else {
                    assert(i / 3 == k);
                }
            }
        }
        k += 1;
    }
    assert(bytes@ =~= without_alpha(image_data@));
    bytes
}

/// The four bytes of a number, the lowest first.
pub open spec fn le32(v: u32) -> Seq<u8> {
    seq![
        (v % 256) as u8,
        (v / 256 % 256) as u8,
        (v / 65536 % 256) as u8,
        (v / 16777216) as u8,
    ]
}

/// The 54 bytes at the head of a bitmap of `width` by `height` pixels of
/// 24 bits: the signature, the file size, the offset of the pixels, the
/// size of the second header, width, height, one plane, 24 bits a pixel,
/// and zeros for the rest.
pub open spec fn bmp_header(width: u32, height: u32) -> Seq<u8> {
    seq![66u8, 77u8] + le32((54 + width * height * 3) as u32) + seq![0u8, 0u8, 0u8, 0u8] + le32(54)
        + le32(40) + le32(width) + le32(height) + seq![1u8, 0u8, 24u8, 0u8] + Seq::new(
        24,
        |i: int| 0u8,
    )
}

/// The byte `i` of the pixels of a bitmap: blue, green and red of every
/// pixel, the bottom row first.
pub open spec fn bmp_pixel_byte(data: Seq<u8>, width: int, height: int, i: int) -> u8 {
    let pixel = i / 3;
    let row = height - 1 - pixel / width;
    let column = pixel % width;
    data[(row * width + column) * 4 + (2 - i % 3)]
}

/// The pixels of a bitmap.
pub open spec fn bmp_pixels(data: Seq<u8>, width: int, height: int) -> Seq<u8> {
    Seq::new((width * height * 3) as nat, |i: int| bmp_pixel_byte(data, width, height, i))
}

/// Appends the four bytes of a number, the lowest first.
fn push_le32(bytes: &mut Vec<u8>, v: u32)
    ensures
        final(bytes)@ == old(bytes)@ + le32(v),
{
    bytes.push((v % 256) as u8);
    bytes.push((v / 256 % 256) as u8);
    bytes.push((v / 65536 % 256) as u8);
    bytes.push((v / 16777216) as u8);
    assert(bytes@ =~= old(bytes)@ + le32(v));
}

/// The image as a bitmap file of 24 bits a pixel: the header, then blue,
/// green and red of every pixel, the bottom row first.
pub fn bmp_bytes(image_data: &Vec<u8>, width: u32, height: u32) -> (bytes: Vec<u8>)
    requires
        image_data.len() == 4 * (width * height),
        54 + width * height * 3 <= u32::MAX,
    ensures
        bytes@ == bmp_header(width, height) + bmp_pixels(image_data@, width as int, height as int),
{
    let ghost w = width as int;
    let ghost h = height as int;
    let ghost data = image_data@;
    let area: u32 = mul_u32(width, height);
    let mut bytes: Vec<u8> = Vec::new();
    bytes.push(66);
    bytes.push(77);
    push_le32(&mut bytes, 54 + area * 3);
    bytes.push(0);
    bytes.push(0);
    bytes.push(0);
    bytes.push(0);
    push_le32(&mut bytes, 54);
    push_le32(&mut bytes, 40);
    push_le32(&mut bytes, width);
    push_le32(&mut bytes, height);
    bytes.push(1);
    bytes.push(0);
    bytes.push(24);
    bytes.push(0);
    let mut k: usize = 0;
    let ghost start = bytes@;
    while k < 24
        invariant
            k <= 24,
            bytes@ == start + Seq::new(k as nat, |i: int| 0u8),
        decreases 24 - k,
    {
        bytes.push(0);
        k += 1;
        assert(bytes@ =~= start + Seq::new(k as nat, |i: int| 0u8));
    }
    assert(bytes@ =~= bmp_header(width, height));
    let ghost head = bytes@;
    let mut done: usize = 0;
    let mut row: usize = height as usize;
    let ghost mut rows_done: int = 0;
    proof {
        assert(0 * w == 0) by (nonlinear_arith);
    }
    while row > 0
        invariant
            w == width,
            h == height,
            data == image_data@,
            data.len() == 4 * (w * h),
            w * h <= u32::MAX,
            54 + w * h * 3 <= u32::MAX,
            0 <= row <= h,
            rows_done == h - row,
            done == rows_done * w * 3,
            bytes@.len() == head.len() + done,
            bytes@.subrange(0, head.len() as int) == head,
            forall|i: int| 0 <= i < done ==> #[trigger] bytes[head.len() + i] == bmp_pixel_byte(
                data,
                w,
                h,
                i,
            ),
        decreases row,
    {
        row -= 1;
        let ghost base = done as int;
        let mut x: usize = 0;
        proof {
            assert(row * w + w <= w * h) by (nonlinear_arith)
                requires
                    0 <= row < h,
                    w >= 0,
            ;
            assert((rows_done + 1) * w * 3 == rows_done * w * 3 + w * 3) by (nonlinear_arith);
            assert(rows_done * w + w <= w * h) by (nonlinear_arith)
                requires
                    0 <= rows_done < h,
                    w >= 0,
            ;
        }
        while x < width as usize
            invariant
                w == width,
                h == height,
                data == image_data@,
                data.len() == 4 * (w * h),
                w * h <= u32::MAX,
                54 + w * h * 3 <= u32::MAX,
                0 <= row < h,
                rows_done == h - 1 - row,
                row * w + w <= w * h,
                rows_done * w + w <= w * h,
                0 <= x <= w,
                base == rows_done * w * 3,
                done == base + 3 * x,
                bytes@.len() == head.len() + done,
                bytes@.subrange(0, head.len() as int) == head,
                forall|i: int|
                    0 <= i < done ==> #[trigger] bytes[head.len() + i] == bmp_pixel_byte(data, w, h, i),
            decreases w - x,
        {
            proof {
                assert(row * (width as usize) == row * w);
                assert(image_data.len() == 4 * (w * h));
                assert((row * w + x) * 4 + 4 <= 4 * (w * h));
                assert((rows_done * w + w) * 3 == rows_done * w * 3 + w * 3) by (nonlinear_arith);
                assert((w * h) * 3 == w * h * 3) by (nonlinear_arith);
            }
            let idx: usize = (row * (width as usize) + x) * 4;
            let ghost before = bytes@;
            bytes.push(image_data[idx + 2]);
            bytes.push(image_data[idx + 1]);
            bytes.push(image_data[idx]);
            proof {
                let pixel = rows_done * w + x;
                assert(rows_done * w * 3 + 3 * x == pixel * 3) by (nonlinear_arith)
                    requires
                        pixel == rows_done * w + x,
                ;
                assert forall|i: int| 0 <= i < done + 3 implies #[trigger] bytes[head.len() + i]
                    == bmp_pixel_byte(data, w, h, i) by {
                    if i < done {
                        assert(bytes[head.len() + i] == before[head.len() + i]);
                    } else {
                        assert(i / 3 == pixel);
                        pixel_of(pixel, w, rows_done, x as int);
                    }
                }
                assert(bytes@.subrange(0, head.len() as int) =~= head);
            }
            done += 3;
            x += 1;
        }
        proof {
            rows_done = rows_done + 1;
        }
    }
    proof {
        assert(h * w * 3 == w * h * 3) by (nonlinear_arith);
        let pixels = bmp_pixels(data, w, h);
        assert(bytes@ =~= head + pixels) by {
            assert forall|i: int| 0 <= i < bytes@.len() implies bytes@[i] == (head + pixels)[i] by {
                if i < head.len() {
                    assert(bytes@.subrange(0, head.len() as int)[i] == head[i]);
                } else {
                    assert(bytes[head.len() + (i - head.len())] == bmp_pixel_byte(
                        data,
                        w,
                        h,
                        i - head.len(),
                    ));
                }
            }
        }
    }
    bytes
}

/// The row and the column of a pixel counted row by row.
proof fn pixel_of(pixel: int, w: int, row: int, column: int)
    requires
        w > 0,
        0 <= column < w,
        pixel == row * w + column,
    ensures
        pixel / w == row,
        pixel % w == column,
{
    vstd::arithmetic::div_mod::lemma_fundamental_div_mod_converse(pixel, w, row, column);
}

/// The product of two numbers that fits.
fn mul_u32(a: u32, b: u32) -> (p: u32)
    requires
        a * b <= u32::MAX,
    ensures
        p == a * b,
{
    a * b
}

} // verus!
