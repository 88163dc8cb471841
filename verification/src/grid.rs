//! Pixel grids: rows of colors, addressed as `grid[y][x]`.
//!
//! The mathematical model of a grid is a sequence of rows, each a sequence
//! of colors. Everything the library says about pixels is stated over that
//! model.

use vstd::prelude::*;
use crate::color::Color;

verus! {

/// The model of a pixel grid: `p[y][x]` is the color in row `y`, column `x`.
pub type Pixels = Seq<Seq<Color>>;

/// The model of an executable grid.
pub open spec fn pixels(g: Vec<Vec<Color>>) -> Pixels {
    Seq::new(g.len() as nat, |y: int| g[y]@)
}

/// The length of the first row, or zero where there is no row.
pub open spec fn width_of(p: Pixels) -> nat {
    if p.len() == 0 {
        0
    } else {
        p[0].len()
    }
}

/// Every row is as long as the first.
pub open spec fn rectangular(p: Pixels) -> bool {
    forall|y: int| 0 <= y < p.len() ==> (#[trigger] p[y]).len() == width_of(p)
}

/// `p` has `h` rows of `w` pixels each.
pub open spec fn has_size(p: Pixels, w: nat, h: nat) -> bool {
    &&& p.len() == h
    &&& forall|y: int| 0 <= y < h ==> (#[trigger] p[y]).len() == w
}

/// `(x, y)` names a pixel of `p`.
pub open spec fn in_bounds(p: Pixels, x: int, y: int) -> bool {
    0 <= y < p.len() && 0 <= x < p[y].len()
}

/// The grid of `h` rows of `w` pixels that all hold `c`.
pub open spec fn filled(w: nat, h: nat, c: Color) -> Pixels {
    Seq::new(h, |y: int| Seq::new(w, |x: int| c))
}

/// `p` with the pixel at `(x, y)` replaced; `p` itself where `(x, y)` is
/// outside it.
pub open spec fn with_pixel(p: Pixels, x: int, y: int, c: Color) -> Pixels {
    if in_bounds(p, x, y) {
        p.update(y, p[y].update(x, c))
    } else {
        p
    }
}

/// A rectangular grid has the size that its first row and its row count give.
pub proof fn rectangular_has_size(p: Pixels)
    requires
        rectangular(p),
    ensures
        has_size(p, width_of(p), p.len()),
{
}

/// A grid of a given size is rectangular; its width is that size's wherever
/// it has a row.
pub proof fn sized_is_rectangular(p: Pixels, w: nat, h: nat)
    requires
        has_size(p, w, h),
    ensures
        rectangular(p),
        h > 0 ==> width_of(p) == w,
{
    if h > 0 {
        assert(p[0].len() == w);
    }
}

/// A row of `width` pixels of one color.
pub fn new_row(width: usize, color: Color) -> (row: Vec<Color>)
    ensures
        row@ == Seq::new(width as nat, |x: int| color),
{
    let mut row: Vec<Color> = Vec::new();
    let mut x: usize = 0;
    while x < width
        invariant
            x <= width,
            row@ == Seq::new(x as nat, |i: int| color),
        decreases width - x,
    {
        row.push(color);
        x += 1;
        assert(row@ =~= Seq::new(x as nat, |i: int| color));
    }
    row
}

/// A grid of `height` rows of `width` pixels, all of one color.
pub fn new_grid(width: usize, height: usize, color: Color) -> (g: Vec<Vec<Color>>)
    ensures
        pixels(g) == filled(width as nat, height as nat, color),
        has_size(pixels(g), width as nat, height as nat),
{
    let mut g: Vec<Vec<Color>> = Vec::new();
    let mut y: usize = 0;
    while y < height
        invariant
            y <= height,
            g.len() == y,
            forall|j: int| 0 <= j < y ==> (#[trigger] g[j])@ == Seq::new(width as nat, |x: int| color),
        decreases height - y,
    {
        g.push(new_row(width, color));
        y += 1;
    }
    assert(pixels(g) =~= filled(width as nat, height as nat, color));
    g
}

/// The number of rows.
pub fn grid_height(g: &Vec<Vec<Color>>) -> (h: usize)
    ensures
        h == pixels(*g).len(),
{
    g.len()
}

/// The length of the first row, zero for a grid without rows.
pub fn grid_width(g: &Vec<Vec<Color>>) -> (w: usize)
    ensures
        w == width_of(pixels(*g)),
{
    if g.len() == 0 {
        0
    } else {
        g[0].len()
    }
}

/// A copy of the grid, pixel for pixel.
pub fn copy_grid(g: &Vec<Vec<Color>>) -> (r: Vec<Vec<Color>>)
    ensures
        pixels(r) == pixels(*g),
{
    let mut r: Vec<Vec<Color>> = Vec::new();
    let mut y: usize = 0;
    while y < g.len()
        invariant
            y <= g.len(),
            r.len() == y,
            forall|j: int| 0 <= j < y ==> (#[trigger] r[j])@ == g[j]@,
        decreases g.len() - y,
    {
        let row = g[y].clone();
        assert(row@ =~= g[y as int]@);
        r.push(row);
        y += 1;
    }
    assert(pixels(r) =~= pixels(*g));
    r
}

/// The color at `(x, y)`, or `None` outside the grid.
pub fn get_pixel(g: &Vec<Vec<Color>>, x: usize, y: usize) -> (c: Option<Color>)
    ensures
        c == if in_bounds(pixels(*g), x as int, y as int) {
            Some(pixels(*g)[y as int][x as int])
        } else {
            None
        },
{
    if y < g.len() && x < g[y].len() {
        Some(g[y][x])
    } else {
        None
    }
}

/// Writes `color` at `(x, y)`; outside the grid nothing happens.
pub fn set_pixel(g: &mut Vec<Vec<Color>>, x: usize, y: usize, color: Color)
    ensures
        pixels(*final(g)) == with_pixel(pixels(*old(g)), x as int, y as int, color),
{
    if y < g.len() && x < g[y].len() {
        g[y][x] = color;
        assert(pixels(*g) =~= with_pixel(pixels(*old(g)), x as int, y as int, color));
    }
}

} // verus!
