//! Image filters on a grid: box blur, pixelation, outline, color
//! replacement and noise.
//!
//! Blur, pixelation and outline read the grid they are given and build a
//! new one, so that no pixel is computed from a pixel already filtered.

use vstd::prelude::*;
use crate::color::{Color, product_bound};
use crate::grid::{Pixels, pixels, width_of, rectangular, has_size, in_bounds};
use crate::paint::{Shape, in_disc, disc_contains};
use crate::random::random_between;

verus! {

/// The sums of the four channels over some pixels.
pub struct ChannelSums {
    pub r: int,
    pub g: int,
    pub b: int,
    pub a: int,
}

impl ChannelSums {
    /// No pixel at all.
    pub open spec fn zero() -> ChannelSums {
        ChannelSums { r: 0, g: 0, b: 0, a: 0 }
    }

    /// These sums and one more pixel.
    pub open spec fn plus(self, c: Color) -> ChannelSums {
        ChannelSums { r: self.r + c.r, g: self.g + c.g, b: self.b + c.b, a: self.a + c.a }
    }

    /// The sums over two disjoint groups of pixels.
    pub open spec fn and(self, other: ChannelSums) -> ChannelSums {
        ChannelSums {
            r: self.r + other.r,
            g: self.g + other.g,
            b: self.b + other.b,
            a: self.a + other.a,
        }
    }

    /// Every sum is that of `n` pixels at most.
    pub open spec fn within(self, n: int) -> bool {
        &&& 0 <= self.r <= 255 * n
        &&& 0 <= self.g <= 255 * n
        &&& 0 <= self.b <= 255 * n
        &&& 0 <= self.a <= 255 * n
    }
}

/// The channel sums of `row[x0..x1]`.
pub open spec fn row_sums(row: Seq<Color>, x0: int, x1: int) -> ChannelSums
    decreases x1 - x0,
{
    if x1 <= x0 {
        ChannelSums::zero()
    } else {
        row_sums(row, x0, x1 - 1).plus(row[x1 - 1])
    }
}

/// The channel sums of the pixels in columns `x0..x1` of rows `y0..y1`.
pub open spec fn window_sums(p: Pixels, x0: int, x1: int, y0: int, y1: int) -> ChannelSums
    decreases y1 - y0,
{
    if y1 <= y0 {
        ChannelSums::zero()
    } else {
        window_sums(p, x0, x1, y0, y1 - 1).and(row_sums(p[y1 - 1], x0, x1))
    }
}

/// `sum / count`, rounded to the nearest integer, a half rounded up.
pub open spec fn rounded_mean(sum: int, count: int) -> int {
    (2 * sum + count) / (2 * count)
}

/// `sum / count`, rounded down.
pub open spec fn floored_mean(sum: int, count: int) -> int {
    sum / count
}

/// The mean color of `count` pixels with the given channel sums.
pub open spec fn mean_color(s: ChannelSums, count: int, rounded: bool) -> Color {
    if rounded {
        Color {
            r: rounded_mean(s.r, count) as u8,
            g: rounded_mean(s.g, count) as u8,
            b: rounded_mean(s.b, count) as u8,
            a: rounded_mean(s.a, count) as u8,
        }
    } else {
        Color {
            r: floored_mean(s.r, count) as u8,
            g: floored_mean(s.g, count) as u8,
            b: floored_mean(s.b, count) as u8,
            a: floored_mean(s.a, count) as u8,
        }
    }
}

/// The number of pixels fits in a `usize`, so that no channel sum over the
/// grid can leave `u128`.
pub open spec fn countable(p: Pixels) -> bool {
    width_of(p) * p.len() <= usize::MAX
}

/// The sums over part of a row are those of as many pixels.
pub proof fn row_sums_within(row: Seq<Color>, x0: int, x1: int)
    requires
        0 <= x0 <= x1 <= row.len(),
    ensures
        row_sums(row, x0, x1).within(x1 - x0),
    decreases x1 - x0,
{
    if x1 > x0 {
        row_sums_within(row, x0, x1 - 1);
    }
}

/// The sums over a window are those of as many pixels.
pub proof fn window_sums_within(p: Pixels, x0: int, x1: int, y0: int, y1: int)
    requires
        rectangular(p),
        0 <= x0 <= x1 <= width_of(p),
        0 <= y0 <= y1 <= p.len(),
    ensures
        window_sums(p, x0, x1, y0, y1).within((x1 - x0) * (y1 - y0)),
    decreases y1 - y0,
{
    if y1 > y0 {
        window_sums_within(p, x0, x1, y0, y1 - 1);
        assert(p[y1 - 1].len() == width_of(p));
        row_sums_within(p[y1 - 1], x0, x1);
        assert((x1 - x0) * (y1 - y0) == (x1 - x0) * (y1 - 1 - y0) + (x1 - x0)) by (nonlinear_arith);
    } else {
        assert((x1 - x0) * (y1 - y0) == 0) by (nonlinear_arith)
            requires
                y1 == y0,
        ;
    }
}

/// Over pixels of one color, every channel sum is that color's channel
/// times the number of pixels.
pub proof fn row_sums_of_uniform(row: Seq<Color>, x0: int, x1: int, c: Color)
    requires
        0 <= x0 <= x1 <= row.len(),
        forall|x: int| x0 <= x < x1 ==> row[x] == c,
    ensures
        row_sums(row, x0, x1) == (ChannelSums {
            r: c.r * (x1 - x0),
            g: c.g * (x1 - x0),
            b: c.b * (x1 - x0),
            a: c.a * (x1 - x0),
        }),
    decreases x1 - x0,
{
    let n = x1 - x0;
    if x1 > x0 {
        row_sums_of_uniform(row, x0, x1 - 1, c);
        assert(c.r * n == c.r * (n - 1) + c.r) by (nonlinear_arith);
        assert(c.g * n == c.g * (n - 1) + c.g) by (nonlinear_arith);
        assert(c.b * n == c.b * (n - 1) + c.b) by (nonlinear_arith);
        assert(c.a * n == c.a * (n - 1) + c.a) by (nonlinear_arith);
    } else {
        assert(c.r * n == 0 && c.g * n == 0 && c.b * n == 0 && c.a * n == 0) by (nonlinear_arith)
            requires
                n == 0,
        ;
    }
}

/// Over a window of one color, every channel sum is that color's channel
/// times the number of pixels.
pub proof fn window_sums_of_uniform(p: Pixels, x0: int, x1: int, y0: int, y1: int, c: Color)
    requires
        rectangular(p),
        0 <= x0 <= x1 <= width_of(p),
        0 <= y0 <= y1 <= p.len(),
        forall|x: int, y: int| x0 <= x < x1 && y0 <= y < y1 ==> p[y][x] == c,
    ensures
        window_sums(p, x0, x1, y0, y1) == (ChannelSums {
            r: c.r * ((x1 - x0) * (y1 - y0)),
            g: c.g * ((x1 - x0) * (y1 - y0)),
            b: c.b * ((x1 - x0) * (y1 - y0)),
            a: c.a * ((x1 - x0) * (y1 - y0)),
        }),
    decreases y1 - y0,
{
    let w = x1 - x0;
    let n = w * (y1 - y0);
    if y1 > y0 {
        let m = w * (y1 - 1 - y0);
        window_sums_of_uniform(p, x0, x1, y0, y1 - 1, c);
        assert(p[y1 - 1].len() == width_of(p));
        row_sums_of_uniform(p[y1 - 1], x0, x1, c);
        assert(n == m + w) by (nonlinear_arith)
            requires
                n == w * (y1 - y0),
                m == w * (y1 - 1 - y0),
        ;
        assert(c.r * n == c.r * m + c.r * w) by (nonlinear_arith)
            requires
                n == m + w,
        ;
        assert(c.g * n == c.g * m + c.g * w) by (nonlinear_arith)
            requires
                n == m + w,
        ;
        assert(c.b * n == c.b * m + c.b * w) by (nonlinear_arith)
            requires
                n == m + w,
        ;
        assert(c.a * n == c.a * m + c.a * w) by (nonlinear_arith)
            requires
                n == m + w,
        ;
    } else {
        assert(n == 0) by (nonlinear_arith)
            requires
                n == w * (y1 - y0),
                y1 == y0,
        ;
        assert(c.r * n == 0 && c.g * n == 0 && c.b * n == 0 && c.a * n == 0) by (nonlinear_arith)
            requires
                n == 0,
        ;
    }
}

/// The mean of `n` copies of a value is the value, rounded either way.
pub proof fn mean_of_copies(v: int, n: int)
    requires
        n > 0,
        v >= 0,
    ensures
        rounded_mean(v * n, n) == v,
        floored_mean(v * n, n) == v,
{
    assert(2 * (v * n) + n == v * (2 * n) + n) by (nonlinear_arith);
    vstd::arithmetic::div_mod::lemma_fundamental_div_mod_converse(2 * (v * n) + n, 2 * n, v, n);
    vstd::arithmetic::div_mod::lemma_fundamental_div_mod_converse(v * n, n, v, 0);
}

/// A mean of channel values is a channel value.
pub proof fn mean_is_channel(sum: int, count: int)
    requires
        count > 0,
        0 <= sum <= 255 * count,
    ensures
        0 <= rounded_mean(sum, count) <= 255,
        0 <= floored_mean(sum, count) <= 255,
{
    assert(0 <= (2 * sum + count) / (2 * count) <= 255) by (nonlinear_arith)
        requires
            count > 0,
            0 <= sum <= 255 * count,
    ;
    assert(0 <= sum / count <= 255) by (nonlinear_arith)
        requires
            count > 0,
            0 <= sum <= 255 * count,
    ;
}

/// The channel sums of the pixels in columns `x0..x1` of rows `y0..y1`.
fn sum_window(g: &Vec<Vec<Color>>, x0: usize, x1: usize, y0: usize, y1: usize) -> (s: (
    u128,
    u128,
    u128,
    u128,
))
    requires
        rectangular(pixels(*g)),
        countable(pixels(*g)),
        x0 <= x1 <= width_of(pixels(*g)),
        y0 <= y1 <= g.len(),
    ensures
        (ChannelSums { r: s.0 as int, g: s.1 as int, b: s.2 as int, a: s.3 as int })
            == window_sums(pixels(*g), x0 as int, x1 as int, y0 as int, y1 as int),
        window_sums(pixels(*g), x0 as int, x1 as int, y0 as int, y1 as int).within(
            (x1 - x0) * (y1 - y0),
        ),
        (x1 - x0) * (y1 - y0) <= usize::MAX,
{
    let ghost p = pixels(*g);
    let ghost w = width_of(p) as int;
    let mut r: u128 = 0;
    let mut gr: u128 = 0;
    let mut b: u128 = 0;
    let mut a: u128 = 0;
    proof {
        product_bound((x1 - x0) as int, (y1 - y0) as int, w, p.len() as int);
        window_sums_within(p, x0 as int, x1 as int, y0 as int, y1 as int);
    }
    let mut y: usize = y0;
    while y < y1
        invariant
            y0 <= y <= y1,
            p == pixels(*g),
            rectangular(p),
            w == width_of(p),
            w * p.len() <= usize::MAX,
            x0 <= x1 <= w,
            y1 <= g.len(),
            (ChannelSums { r: r as int, g: gr as int, b: b as int, a: a as int }) == window_sums(
                p,
                x0 as int,
                x1 as int,
                y0 as int,
                y as int,
            ),
        decreases y1 - y,
    {
        assert(p[y as int].len() == w);
        let ghost base = window_sums(p, x0 as int, x1 as int, y0 as int, y as int);
        proof {
            window_sums_within(p, x0 as int, x1 as int, y0 as int, y as int);
            window_sums_within(p, x0 as int, x1 as int, y0 as int, y + 1);
            product_bound((x1 - x0) as int, (y + 1 - y0) as int, w, p.len() as int);
        }
        let mut x: usize = x0;
        while x < x1
            invariant
                y0 <= y < y1,
                x0 <= x <= x1,
                p == pixels(*g),
                y1 <= g.len(),
                x1 <= w,
                p[y as int].len() == w,
                g[y as int].len() == w,
                base.within((x1 - x0) * (y - y0)),
                (x1 - x0) * (y + 1 - y0) <= usize::MAX,
                (ChannelSums { r: r as int, g: gr as int, b: b as int, a: a as int }) == base.and(
                    row_sums(p[y as int], x0 as int, x as int),
                ),
            decreases x1 - x,
        {
            proof {
                row_sums_within(p[y as int], x0 as int, x as int);
                assert((x1 - x0) * (y + 1 - y0) == (x1 - x0) * (y - y0) + (x1 - x0))
                    by (nonlinear_arith);
            }
            let c = g[y][x];
            r = r + c.r as u128;
            gr = gr + c.g as u128;
            b = b + c.b as u128;
            a = a + c.a as u128;
            x += 1;
        }
        y += 1;
    }
    (r, gr, b, a)
}

/// The mean color of `count` pixels, from their channel sums.
fn mean_of(s: (u128, u128, u128, u128), count: usize, rounded: bool) -> (c: Color)
    requires
        count > 0,
        (ChannelSums { r: s.0 as int, g: s.1 as int, b: s.2 as int, a: s.3 as int }).within(
            count as int,
        ),
    ensures
        c == mean_color(
            ChannelSums { r: s.0 as int, g: s.1 as int, b: s.2 as int, a: s.3 as int },
            count as int,
            rounded,
        ),
{
    proof {
        mean_is_channel(s.0 as int, count as int);
        mean_is_channel(s.1 as int, count as int);
        mean_is_channel(s.2 as int, count as int);
        mean_is_channel(s.3 as int, count as int);
    }
    let n: u128 = count as u128;
    if rounded {
        Color {
            r: ((2 * s.0 + n) / (2 * n)) as u8,
            g: ((2 * s.1 + n) / (2 * n)) as u8,
            b: ((2 * s.2 + n) / (2 * n)) as u8,
            a: ((2 * s.3 + n) / (2 * n)) as u8,
        }
    } else {
        Color { r: (s.0 / n) as u8, g: (s.1 / n) as u8, b: (s.2 / n) as u8, a: (s.3 / n) as u8 }
    }
}

/// The first index of a window of the given radius around `c`.
pub open spec fn window_start(c: int, radius: int) -> int {
    if c > radius {
        c - radius
    } else {
        0
    }
}

/// The index after the last of a window of the given radius around `c`,
/// clipped to `n`.
pub open spec fn window_end(c: int, radius: int, n: int) -> int {
    if radius < n - c {
        c + radius + 1
    } else {
        n
    }
}

/// The box-blurred pixel at `(x, y)`: the rounded mean, channel by channel,
/// of the pixels at most `radius` away in either direction that lie inside
/// the grid.
pub open spec fn blurred_pixel(p: Pixels, radius: int, x: int, y: int) -> Color {
    let x0 = window_start(x, radius);
    let x1 = window_end(x, radius, width_of(p) as int);
    let y0 = window_start(y, radius);
    let y1 = window_end(y, radius, p.len() as int);
    mean_color(window_sums(p, x0, x1, y0, y1), (x1 - x0) * (y1 - y0), true)
}

/// The box blur of a grid.
pub open spec fn blurred(p: Pixels, radius: int) -> Pixels {
    Seq::new(p.len(), |y: int| Seq::new(p[y].len(), |x: int| blurred_pixel(p, radius, x, y)))
}

/// A pixel whose window holds one color only keeps that color under blur.
pub proof fn blur_of_uniform_window(p: Pixels, radius: int, x: int, y: int, c: Color)
    requires
        rectangular(p),
        in_bounds(p, x, y),
        radius >= 0,
        forall|i: int, j: int|
            window_start(x, radius) <= i < window_end(x, radius, width_of(p) as int)
                && window_start(y, radius) <= j < window_end(y, radius, p.len() as int) ==> p[j][i]
                == c,
    ensures
        blurred(p, radius)[y][x] == c,
{
    assert(p[y].len() == width_of(p));
    let x0 = window_start(x, radius);
    let x1 = window_end(x, radius, width_of(p) as int);
    let y0 = window_start(y, radius);
    let y1 = window_end(y, radius, p.len() as int);
    let n = (x1 - x0) * (y1 - y0);
    assert(n > 0) by (nonlinear_arith)
        requires
            n == (x1 - x0) * (y1 - y0),
            x1 > x0,
            y1 > y0,
    ;
    window_sums_of_uniform(p, x0, x1, y0, y1, c);
    mean_of_copies(c.r as int, n);
    mean_of_copies(c.g as int, n);
    mean_of_copies(c.b as int, n);
    mean_of_copies(c.a as int, n);
}

/// At the top left corner a blur takes the mean of the pixels that are
/// there: of the columns and rows from the first to the `radius`-th after
/// it, or to the last where the grid ends before. Nothing from beyond the
/// grid comes into it, and nothing from its far side.
pub proof fn blur_at_corner(p: Pixels, radius: int)
    requires
        rectangular(p),
        in_bounds(p, 0, 0),
        radius >= 0,
    ensures
        ({
            let across = if radius + 1 <= width_of(p) {
                radius + 1
            } else {
                width_of(p) as int
            };
            let down = if radius + 1 <= p.len() {
                radius + 1
            } else {
                p.len() as int
            };
            blurred(p, radius)[0][0] == mean_color(
                window_sums(p, 0, across, 0, down),
                across * down,
                true,
            )
        }),
{
}

/// Box blur: every pixel becomes the rounded mean of its neighbourhood.
pub fn blur_grid(g: &Vec<Vec<Color>>, radius: usize) -> (out: Vec<Vec<Color>>)
    requires
        rectangular(pixels(*g)),
        countable(pixels(*g)),
    ensures
        pixels(out) == blurred(pixels(*g), radius as int),
        has_size(pixels(out), width_of(pixels(*g)), pixels(*g).len()),
{
    let ghost p = pixels(*g);
    let height = g.len();
    let width = crate::grid::grid_width(g);
    let mut out: Vec<Vec<Color>> = Vec::new();
    let mut y: usize = 0;
    while y < height
        invariant
            y <= height,
            height == g.len(),
            p == pixels(*g),
            rectangular(p),
            countable(p),
            width == width_of(p),
            out.len() == y,
            forall|j: int| 0 <= j < y ==> (#[trigger] out[j])@ == blurred(p, radius as int)[j],
        decreases height - y,
    {
        assert(p[y as int].len() == width);
        let y0 = if y > radius {
            y - radius
        } else {
            0
        };
        let y1 = if radius < height - y {
            y + radius + 1
        } else {
            height
        };
        let mut row: Vec<Color> = Vec::new();
        let mut x: usize = 0;
        while x < width
            invariant
                x <= width,
                y < height,
                height == g.len(),
                p == pixels(*g),
                rectangular(p),
                countable(p),
                width == width_of(p),
                p[y as int].len() == width,
                y0 == window_start(y as int, radius as int),
                y1 == window_end(y as int, radius as int, height as int),
                row.len() == x,
                forall|i: int|
                    0 <= i < x ==> (#[trigger] row[i]) == blurred_pixel(p, radius as int, i, y as int),
            decreases width - x,
        {
            let x0 = if x > radius {
                x - radius
            } else {
                0
            };
            let x1 = if radius < width - x {
                x + radius + 1
            } else {
                width
            };
            let sums = sum_window(g, x0, x1, y0, y1);
            let count = (x1 - x0) * (y1 - y0);
            assert(count > 0) by (nonlinear_arith)
                requires
                    count == (x1 - x0) * (y1 - y0),
                    x1 > x0,
                    y1 > y0,
            ;
            row.push(mean_of(sums, count, true));
            x += 1;
        }
        assert(row@ =~= blurred(p, radius as int)[y as int]);
        out.push(row);
        y += 1;
    }
    assert(pixels(out) =~= blurred(p, radius as int));
    out
}

/// The first index of the tile of size `block` that holds `c`.
pub open spec fn tile_start(c: int, block: int) -> int {
    (c / block) * block
}

/// The index after the last of the tile that holds `c`, clipped to `n`.
pub open spec fn tile_end(c: int, block: int, n: int) -> int {
    if tile_start(c, block) + block <= n {
        tile_start(c, block) + block
    } else {
        n
    }
}

/// The pixelated pixel at `(x, y)`: the mean, channel by channel and
/// rounded down, of the tile that holds it.
pub open spec fn pixelated_pixel(p: Pixels, block: int, x: int, y: int) -> Color {
    let x0 = tile_start(x, block);
    let x1 = tile_end(x, block, width_of(p) as int);
    let y0 = tile_start(y, block);
    let y1 = tile_end(y, block, p.len() as int);
    mean_color(window_sums(p, x0, x1, y0, y1), (x1 - x0) * (y1 - y0), false)
}

/// The grid cut into tiles of `block` by `block` pixels, smaller at the
/// right and bottom edges, each tile filled with its mean color.
pub open spec fn pixelated(p: Pixels, block: int) -> Pixels {
    Seq::new(p.len(), |y: int| Seq::new(p[y].len(), |x: int| pixelated_pixel(p, block, x, y)))
}

/// The tile of an index between two multiples of the block size.
proof fn tile_of(c: int, block: int, k: int)
    requires
        block > 0,
        k * block <= c < k * block + block,
    ensures
        c / block == k,
        tile_start(c, block) == k * block,
{
    vstd::arithmetic::div_mod::lemma_fundamental_div_mod_converse(c, block, k, c - k * block);
}

/// An index below `n` tiles' worth of pixels lies in one of the first `n`
/// tiles.
proof fn tile_index_bound(c: int, block: int, n: int)
    requires
        block > 0,
        0 <= c < n * block,
    ensures
        0 <= c / block < n,
        (c / block) * block <= c < (c / block) * block + block,
{
    let k = c / block;
    vstd::arithmetic::div_mod::lemma_fundamental_div_mod(c, block);
    vstd::arithmetic::div_mod::lemma_mod_bound(c, block);
    assert(block * k == k * block) by (nonlinear_arith);
    if k >= n {
        assert(k * block >= n * block) by (nonlinear_arith)
            requires
                k >= n,
                block > 0,
        ;
    }
    if k < 0 {
        assert(k * block <= -block) by (nonlinear_arith)
            requires
                k <= -1,
                block > 0,
        ;
    }
}

/// The mean color, rounded down, of the `k`-th tile of a row of tiles that
/// spans the rows `y0..y1`.
pub open spec fn tile_mean(p: Pixels, block: int, k: int, y0: int, y1: int) -> Color {
    let x0 = k * block;
    let x1 = if x0 + block <= width_of(p) {
        x0 + block
    } else {
        width_of(p) as int
    };
    mean_color(window_sums(p, x0, x1, y0, y1), (x1 - x0) * (y1 - y0), false)
}

/// The mean colors of the tiles of one row of tiles, left to right.
fn tile_means(g: &Vec<Vec<Color>>, block: usize, y0: usize, y1: usize) -> (means: Vec<Color>)
    requires
        rectangular(pixels(*g)),
        countable(pixels(*g)),
        block > 0,
        y0 < y1 <= g.len(),
    ensures
        means.len() * block >= width_of(pixels(*g)),
        forall|k: int|
            0 <= k < means.len() ==> #[trigger] means[k] == tile_mean(
                pixels(*g),
                block as int,
                k,
                y0 as int,
                y1 as int,
            ),
{
    let ghost p = pixels(*g);
    let width = crate::grid::grid_width(g);
    let mut means: Vec<Color> = Vec::new();
    let mut x0: usize = 0;
    let ghost mut covered: int = 0;
    assert(0 * block == 0) by (nonlinear_arith);
    while x0 < width
        invariant
            p == pixels(*g),
            rectangular(p),
            countable(p),
            width == width_of(p),
            block > 0,
            y0 < y1 <= g.len(),
            x0 <= width,
            covered == means.len() * block,
            x0 < width ==> x0 == covered,
            x0 == width ==> covered >= width,
            forall|k: int|
                0 <= k < means.len() ==> #[trigger] means[k] == tile_mean(
                    p,
                    block as int,
                    k,
                    y0 as int,
                    y1 as int,
                ),
        decreases width - x0,
    {
        let x1 = if block <= width - x0 {
            x0 + block
        } else {
            width
        };
        let ghost k = means.len() as int;
        let sums = sum_window(g, x0, x1, y0, y1);
        let count = (x1 - x0) * (y1 - y0);
        assert(count > 0) by (nonlinear_arith)
            requires
                count == (x1 - x0) * (y1 - y0),
                x1 > x0,
                y1 > y0,
        ;
        let mean = mean_of(sums, count, false);
        means.push(mean);
        proof {
            assert((k + 1) * block == k * block + block) by (nonlinear_arith);
            covered = covered + block;
            assert(means[k] == tile_mean(p, block as int, k, y0 as int, y1 as int));
        }
        x0 = x1;
    }
    means
}

/// Pixelation: every tile of `block_size` by `block_size` pixels is filled
/// with its mean color.
pub fn pixelate_grid(g: &Vec<Vec<Color>>, block_size: usize) -> (out: Vec<Vec<Color>>)
    requires
        rectangular(pixels(*g)),
        countable(pixels(*g)),
        block_size > 0,
    ensures
        pixels(out) == pixelated(pixels(*g), block_size as int),
        has_size(pixels(out), width_of(pixels(*g)), pixels(*g).len()),
{
    let ghost p = pixels(*g);
    let ghost block = block_size as int;
    let height = g.len();
    let width = crate::grid::grid_width(g);
    let mut out: Vec<Vec<Color>> = Vec::new();
    let mut y0: usize = 0;
    let ghost mut k: int = 0;
    assert(0 * block == 0) by (nonlinear_arith);
    while y0 < height
        invariant
            y0 <= height,
            height == g.len(),
            p == pixels(*g),
            rectangular(p),
            countable(p),
            width == width_of(p),
            block == block_size,
            block > 0,
            y0 < height ==> y0 == k * block,
            out.len() == y0,
            forall|j: int| 0 <= j < y0 ==> (#[trigger] out[j])@ == pixelated(p, block)[j],
        decreases height - y0,
    {
        let y1 = if block_size <= height - y0 {
            y0 + block_size
        } else {
            height
        };
        let means = tile_means(g, block_size, y0, y1);
        let mut y: usize = y0;
        while y < y1
            invariant
                y0 <= y <= y1 <= height,
                y0 == k * block,
                y1 == if y0 + block <= height {
                    y0 + block
                } else {
                    height as int
                },
                height == g.len(),
                p == pixels(*g),
                rectangular(p),
                width == width_of(p),
                block == block_size,
                block > 0,
                out.len() == y,
                forall|j: int| 0 <= j < y ==> (#[trigger] out[j])@ == pixelated(p, block)[j],
                means.len() * block >= width,
                forall|t: int|
                    0 <= t < means.len() ==> #[trigger] means[t] == tile_mean(
                        p,
                        block,
                        t,
                        y0 as int,
                        y1 as int,
                    ),
            decreases y1 - y,
        {
            assert(p[y as int].len() == width);
            proof {
                tile_of(y as int, block, k);
            }
            let mut row: Vec<Color> = Vec::new();
            let mut x: usize = 0;
            while x < width
                invariant
                    x <= width,
                    y < height,
                    height == p.len(),
                    p == pixels(*g),
                    width == width_of(p),
                    block == block_size,
                    block > 0,
                    tile_start(y as int, block) == y0,
                    tile_end(y as int, block, height as int) == y1,
                    row.len() == x,
                    forall|i: int|
                        0 <= i < x ==> (#[trigger] row[i]) == pixelated_pixel(p, block, i, y as int),
                    means.len() * block >= width,
                    forall|t: int|
                        0 <= t < means.len() ==> #[trigger] means[t] == tile_mean(
                            p,
                            block,
                            t,
                            y0 as int,
                            y1 as int,
                        ),
                decreases width - x,
            {
                proof {
                    tile_index_bound(x as int, block, means.len() as int);
                }
                let t = x / block_size;
                let mean = means[t];
                assert(mean == pixelated_pixel(p, block, x as int, y as int));
                row.push(mean);
                x += 1;
            }
            assert(row@ =~= pixelated(p, block)[y as int]);
            out.push(row);
            y += 1;
        }
        proof {
            assert((k + 1) * block == k * block + block) by (nonlinear_arith);
            k = k + 1;
        }
        y0 = y1;
    }
    assert(pixels(out) =~= pixelated(p, block));
    out
}

/// Whether some pixel with any alpha lies within Euclidean distance
/// `thickness` of `(x, y)`.
pub open spec fn touches_opaque(p: Pixels, thickness: int, x: int, y: int) -> bool {
    exists|i: int, j: int|
        in_bounds(p, i, j) && (#[trigger] p[j][i]).a > 0 && in_disc(x, y, thickness, i, j)
}

/// The grid with an outline: every pixel without alpha that lies within
/// `thickness` of a pixel with alpha holds `color`; all others are as
/// before.
pub open spec fn outlined(p: Pixels, color: Color, thickness: int) -> Pixels {
    Seq::new(
        p.len(),
        |y: int|
            Seq::new(
                p[y].len(),
                |x: int| if p[y][x].a == 0 && touches_opaque(p, thickness, x, y) {
                    color
                } else {
                    p[y][x]
                },
            ),
    )
}

/// Whether some pixel with any alpha lies within `thickness` of `(x, y)`.
fn near_opaque(g: &Vec<Vec<Color>>, x: usize, y: usize, thickness: usize) -> (found: bool)
    requires
        rectangular(pixels(*g)),
    ensures
        found == touches_opaque(pixels(*g), thickness as int, x as int, y as int),
{
    let ghost p = pixels(*g);
    let height = g.len();
    let width = crate::grid::grid_width(g);
    let disc = Shape::Disc { cx: x, cy: y, radius: thickness };
    let (x0, x1, y0, y1) = disc.window(width, height);
    let mut j: usize = y0;
    while j < y1
        invariant
            y0 <= j <= y1 <= height,
            x0 <= x1 <= width,
            p == pixels(*g),
            rectangular(p),
            height == g.len(),
            width == width_of(p),
            forall|i: int, k: int|
                x0 <= i < x1 && y0 <= k < j ==> !((#[trigger] p[k][i]).a > 0 && in_disc(
                    x as int,
                    y as int,
                    thickness as int,
                    i,
                    k,
                )),
        decreases y1 - j,
    {
        assert(p[j as int].len() == width);
        let mut i: usize = x0;
        while i < x1
            invariant
                y0 <= j < y1 <= height,
                x0 <= i <= x1 <= width,
                p == pixels(*g),
                height == g.len(),
                p[j as int].len() == width,
                forall|i2: int, k: int|
                    x0 <= i2 < x1 && y0 <= k < j ==> !((#[trigger] p[k][i2]).a > 0 && in_disc(
                        x as int,
                        y as int,
                        thickness as int,
                        i2,
                        k,
                    )),
                forall|i2: int|
                    x0 <= i2 < i ==> !((#[trigger] p[j as int][i2]).a > 0 && in_disc(
                        x as int,
                        y as int,
                        thickness as int,
                        i2,
                        j as int,
                    )),
            decreases x1 - i,
        {
            if g[j][i].a > 0 && disc_contains(x, y, thickness, i, j) {
                assert(in_bounds(p, i as int, j as int) && p[j as int][i as int].a > 0);
                return true;
            }
            i += 1;
        }
        j += 1;
    }
    proof {
        assert forall|i: int, k: int|
            in_bounds(p, i, k) && (#[trigger] p[k][i]).a > 0 implies !in_disc(
            x as int,
            y as int,
            thickness as int,
            i,
            k,
        ) by {
            assert(p[k].len() == width);
            if in_disc(x as int, y as int, thickness as int, i, k) {
                assert(disc.points().contains((i, k)));
            }
        }
    }
    false
}

/// Outline: every pixel without alpha that lies within `thickness` of a
/// pixel with alpha is painted in `color`.
pub fn outline_grid(g: &Vec<Vec<Color>>, color: Color, thickness: usize) -> (out: Vec<Vec<Color>>)
    requires
        rectangular(pixels(*g)),
    ensures
        pixels(out) == outlined(pixels(*g), color, thickness as int),
        has_size(pixels(out), width_of(pixels(*g)), pixels(*g).len()),
{
    let ghost p = pixels(*g);
    let height = g.len();
    let width = crate::grid::grid_width(g);
    let mut out: Vec<Vec<Color>> = Vec::new();
    let mut y: usize = 0;
    while y < height
        invariant
            y <= height,
            height == g.len(),
            p == pixels(*g),
            rectangular(p),
            width == width_of(p),
            out.len() == y,
            forall|j: int| 0 <= j < y ==> (#[trigger] out[j])@ == outlined(p, color, thickness as int)[j],
        decreases height - y,
    {
        assert(p[y as int].len() == width);
        let mut row: Vec<Color> = Vec::new();
        let mut x: usize = 0;
        while x < width
            invariant
                x <= width,
                y < height,
                height == g.len(),
                p == pixels(*g),
                rectangular(p),
                width == width_of(p),
                p[y as int].len() == width,
                row.len() == x,
                forall|i: int|
                    0 <= i < x ==> (#[trigger] row[i]) == outlined(p, color, thickness as int)[y as int][i],
            decreases width - x,
        {
            let c = g[y][x];
            if c.a == 0 && near_opaque(g, x, y, thickness) {
                row.push(color);
            } else {
                row.push(c);
            }
            x += 1;
        }
        assert(row@ =~= outlined(p, color, thickness as int)[y as int]);
        out.push(row);
        y += 1;
    }
    assert(pixels(out) =~= outlined(p, color, thickness as int));
    out
}

/// The distance between two channel values.
pub open spec fn channel_gap(a: u8, b: u8) -> int {
    if a >= b {
        a - b
    } else {
        b - a
    }
}

/// Whether `c` differs from `from` by at most `tolerance` on each of the
/// four channels.
pub open spec fn within_tolerance(c: Color, from: Color, tolerance: u8) -> bool {
    &&& channel_gap(c.r, from.r) <= tolerance
    &&& channel_gap(c.g, from.g) <= tolerance
    &&& channel_gap(c.b, from.b) <= tolerance
    &&& channel_gap(c.a, from.a) <= tolerance
}

/// The grid with every pixel that is within `tolerance` of `from` replaced
/// by `to`.
pub open spec fn color_replaced(p: Pixels, from: Color, to: Color, tolerance: u8) -> Pixels {
    Seq::new(
        p.len(),
        |y: int|
            Seq::new(
                p[y].len(),
                |x: int| if within_tolerance(p[y][x], from, tolerance) {
                    to
                } else {
                    p[y][x]
                },
            ),
    )
}

/// A pixel that differs from `from` by exactly the tolerance on every
/// channel is replaced.
pub proof fn replaced_at_tolerance(
    p: Pixels,
    from: Color,
    to: Color,
    tolerance: u8,
    x: int,
    y: int,
)
    requires
        in_bounds(p, x, y),
        channel_gap(p[y][x].r, from.r) == tolerance,
        channel_gap(p[y][x].g, from.g) == tolerance,
        channel_gap(p[y][x].b, from.b) == tolerance,
        channel_gap(p[y][x].a, from.a) == tolerance,
    ensures
        color_replaced(p, from, to, tolerance)[y][x] == to,
{
}

/// A pixel that differs from `from` by one more than the tolerance on any
/// channel is kept.
pub proof fn kept_beyond_tolerance(
    p: Pixels,
    from: Color,
    to: Color,
    tolerance: u8,
    x: int,
    y: int,
)
    requires
        in_bounds(p, x, y),
        channel_gap(p[y][x].r, from.r) == tolerance + 1 || channel_gap(p[y][x].g, from.g)
            == tolerance + 1 || channel_gap(p[y][x].b, from.b) == tolerance + 1 || channel_gap(
            p[y][x].a,
            from.a,
        ) == tolerance + 1,
    ensures
        color_replaced(p, from, to, tolerance)[y][x] == p[y][x],
{
}

/// The distance between two channel values.
fn gap_of(a: u8, b: u8) -> (d: u8)
    ensures
        d == channel_gap(a, b),
{
    if a >= b {
        a - b
    } else {
        b - a
    }
}

/// Whether `c` is within `tolerance` of `from` on all four channels.
pub fn matches_within(c: Color, from: Color, tolerance: u8) -> (m: bool)
    ensures
        m == within_tolerance(c, from, tolerance),
{
    gap_of(c.r, from.r) <= tolerance && gap_of(c.g, from.g) <= tolerance && gap_of(c.b, from.b)
        <= tolerance && gap_of(c.a, from.a) <= tolerance
}

/// Color replacement, in place.
pub fn replace_color_in(g: &mut Vec<Vec<Color>>, from: Color, to: Color, tolerance: u8)
    ensures
        pixels(*final(g)) == color_replaced(pixels(*old(g)), from, to, tolerance),
{
    let ghost p = pixels(*old(g));
    let ghost want = color_replaced(p, from, to, tolerance);
    let height = g.len();
    let mut y: usize = 0;
    while y < height
        invariant
            y <= height,
            height == g.len(),
            p.len() == height,
            want == color_replaced(p, from, to, tolerance),
            forall|j: int| 0 <= j < y ==> (#[trigger] g[j])@ == want[j],
            forall|j: int| y <= j < height ==> (#[trigger] g[j])@ == p[j],
        decreases height - y,
    {
        let width = g[y].len();
        let mut x: usize = 0;
        while x < width
            invariant
                x <= width,
                y < height,
                height == g.len(),
                p.len() == height,
                width == p[y as int].len(),
                g[y as int].len() == width,
                want == color_replaced(p, from, to, tolerance),
                forall|j: int| 0 <= j < y ==> (#[trigger] g[j])@ == want[j],
                forall|j: int| y < j < height ==> (#[trigger] g[j])@ == p[j],
                forall|i: int| 0 <= i < x ==> (#[trigger] g[y as int][i]) == want[y as int][i],
                forall|i: int| x <= i < width ==> (#[trigger] g[y as int][i]) == p[y as int][i],
            decreases width - x,
        {
            if matches_within(g[y][x], from, tolerance) {
                g[y][x] = to;
            }
            x += 1;
        }
        assert(g[y as int]@ =~= want[y as int]);
        y += 1;
    }
    assert(pixels(*g) =~= want);
}

/// A channel value moved by `d` and held within the channel's range.
pub open spec fn shifted_channel(v: u8, d: int) -> u8 {
    if v + d < 0 {
        0u8
    } else if v + d > 255 {
        255u8
    } else {
        (v + d) as u8
    }
}

/// A pixel with its three color channels moved by `dr`, `dg` and `db`. The
/// alpha stays; a pixel without alpha stays as it is.
pub open spec fn shifted(c: Color, dr: int, dg: int, db: int) -> Color {
    if c.a == 0 {
        c
    } else {
        Color {
            r: shifted_channel(c.r, dr),
            g: shifted_channel(c.g, dg),
            b: shifted_channel(c.b, db),
            a: c.a,
        }
    }
}

/// `after` is `before` with each color channel moved by at most
/// `intensity` either way.
pub open spec fn noise_of(before: Color, after: Color, intensity: u8) -> bool {
    exists|dr: int, dg: int, db: int|
        -intensity <= dr <= intensity && -intensity <= dg <= intensity && -intensity <= db
            <= intensity && after == #[trigger] shifted(before, dr, dg, db)
}

/// Moves the three color channels of a pixel by the given amounts, holding
/// each within the channel's range.
pub fn shift_pixel(c: Color, dr: i64, dg: i64, db: i64) -> (out: Color)
    ensures
        out == shifted(c, dr as int, dg as int, db as int),
{
    if c.a == 0 {
        c
    } else {
        Color { r: shift_channel(c.r, dr), g: shift_channel(c.g, dg), b: shift_channel(c.b, db), a: c.a }
    }
}

/// Moves one channel by `d`, holding it within the channel's range.
fn shift_channel(v: u8, d: i64) -> (out: u8)
    ensures
        out == shifted_channel(v, d as int),
{
    let sum: i128 = v as i128 + d as i128;
    if sum < 0 {
        0
    } else if sum > 255 {
        255
    } else {
        sum as u8
    }
}

/// Noise, in place: every pixel with alpha has each of its color channels
/// moved by a random amount of at most `intensity` either way.
pub fn add_noise_to(g: &mut Vec<Vec<Color>>, intensity: u8)
    ensures
        pixels(*final(g)).len() == pixels(*old(g)).len(),
        forall|y: int|
            0 <= y < pixels(*old(g)).len() ==> (#[trigger] pixels(*final(g))[y]).len() == pixels(
                *old(g),
            )[y].len(),
        forall|x: int, y: int|
            in_bounds(pixels(*old(g)), x, y) ==> noise_of(
                pixels(*old(g))[y][x],
                #[trigger] pixels(*final(g))[y][x],
                intensity,
            ),
{
    let ghost p = pixels(*old(g));
    let height = g.len();
    let reach: i64 = intensity as i64;
    let mut y: usize = 0;
    while y < height
        invariant
            y <= height,
            height == g.len(),
            p.len() == height,
            reach == intensity,
            forall|j: int| 0 <= j < height ==> (#[trigger] g[j]).len() == p[j].len(),
            forall|j: int, i: int|
                0 <= j < y && 0 <= i < p[j].len() ==> noise_of(p[j][i], #[trigger] g[j][i], intensity),
            forall|j: int| y <= j < height ==> (#[trigger] g[j])@ == p[j],
        decreases height - y,
    {
        let width = g[y].len();
        let mut x: usize = 0;
        while x < width
            invariant
                x <= width,
                y < height,
                height == g.len(),
                p.len() == height,
                reach == intensity,
                width == p[y as int].len(),
                forall|j: int| 0 <= j < height ==> (#[trigger] g[j]).len() == p[j].len(),
                forall|j: int, i: int|
                    0 <= j < y && 0 <= i < p[j].len() ==> noise_of(
                        p[j][i],
                        #[trigger] g[j][i],
                        intensity,
                    ),
                forall|j: int| y < j < height ==> (#[trigger] g[j])@ == p[j],
                forall|i: int|
                    0 <= i < x ==> noise_of(p[y as int][i], #[trigger] g[y as int][i], intensity),
                forall|i: int| x <= i < width ==> (#[trigger] g[y as int][i]) == p[y as int][i],
            decreases width - x,
        {
            let c = g[y][x];
            if c.a > 0 {
                let dr = random_between(-reach, reach);
                let dg = random_between(-reach, reach);
                let db = random_between(-reach, reach);
                let noisy = shift_pixel(c, dr, dg, db);
                g[y][x] = noisy;
                assert(noisy == shifted(c, dr as int, dg as int, db as int));
            } else {
                assert(c == shifted(c, 0, 0, 0));
            }
            x += 1;
        }
        y += 1;
    }
}

} // verus!
