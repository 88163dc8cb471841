//! Painting shapes into a grid, with optional mirror symmetry.
//!
//! Every tool paints a set of points, its shape, in one color. With symmetry
//! on an axis, each point of the shape that lies inside the grid is also
//! painted at its mirror image across the grid's midline. Points outside the
//! grid are skipped.

use vstd::prelude::*;
use crate::color::Color;
use crate::grid::{Pixels, pixels, width_of, rectangular, in_bounds};

verus! {

/// Across which midlines a painted point is mirrored.
#[derive(Clone, Copy, Debug, PartialEq, Eq, Structural)]
pub struct Symmetry {
    /// Mirror left to right: `x` also paints `width - 1 - x`.
    pub horizontal: bool,
    /// Mirror top to bottom: `y` also paints `height - 1 - y`.
    pub vertical: bool,
}

impl Symmetry {
    /// No mirroring.
    pub open spec fn spec_none() -> Symmetry {
        Symmetry { horizontal: false, vertical: false }
    }

    /// No mirroring.
    #[verifier::when_used_as_spec(spec_none)]
    pub fn none() -> (s: Symmetry)
        ensures
            s == Symmetry::spec_none(),
    {
        Symmetry { horizontal: false, vertical: false }
    }
}

/// Whether the pixel `(x, y)` of `p` is a point of the shape or the mirror
/// image of one.
pub open spec fn hit(p: Pixels, shape: Set<(int, int)>, sym: Symmetry, x: int, y: int) -> bool {
    let w = width_of(p) as int;
    let h = p.len() as int;
    ||| shape.contains((x, y))
    ||| sym.horizontal && shape.contains((w - 1 - x, y))
    ||| sym.vertical && shape.contains((x, h - 1 - y))
    ||| sym.horizontal && sym.vertical && shape.contains((w - 1 - x, h - 1 - y))
}

/// `p` after painting a shape: every pixel that the shape hits holds
/// `color`, every other pixel is as before.
pub open spec fn painted(p: Pixels, shape: Set<(int, int)>, sym: Symmetry, color: Color) -> Pixels {
    Seq::new(
        p.len(),
        |y: int| Seq::new(p[y].len(), |x: int| if hit(p, shape, sym, x, y) {
            color
        } else {
            p[y][x]
        }),
    )
}

/// Painting keeps the grid's shape.
pub proof fn painted_keeps_shape(p: Pixels, shape: Set<(int, int)>, sym: Symmetry, color: Color)
    requires
        rectangular(p),
    ensures
        rectangular(painted(p, shape, sym, color)),
        painted(p, shape, sym, color).len() == p.len(),
        width_of(painted(p, shape, sym, color)) == width_of(p),
{
    let q = painted(p, shape, sym, color);
    if p.len() > 0 {
        assert(q[0].len() == p[0].len());
    }
    assert forall|y: int| 0 <= y < q.len() implies (#[trigger] q[y]).len() == width_of(q) by {
        assert(p[y].len() == width_of(p));
    }
}

/// Two shapes that hold the same points inside the grid paint the same.
pub proof fn painted_agree(
    p: Pixels,
    s: Set<(int, int)>,
    t: Set<(int, int)>,
    sym: Symmetry,
    color: Color,
)
    requires
        rectangular(p),
        forall|x: int, y: int|
            0 <= x < width_of(p) && 0 <= y < p.len() ==> (s.contains((x, y)) <==> t.contains(
                (x, y),
            )),
    ensures
        painted(p, s, sym, color) == painted(p, t, sym, color),
{
    let a = painted(p, s, sym, color);
    let b = painted(p, t, sym, color);
    let w = width_of(p) as int;
    let h = p.len() as int;
    assert forall|y: int| 0 <= y < a.len() implies #[trigger] a[y] =~= b[y] by {
        assert(p[y].len() == w);
        assert forall|x: int| 0 <= x < a[y].len() implies a[y][x] == b[y][x] by {
            assert(s.contains((x, y)) <==> t.contains((x, y)));
            assert(s.contains((w - 1 - x, y)) <==> t.contains((w - 1 - x, y)));
            assert(s.contains((x, h - 1 - y)) <==> t.contains((x, h - 1 - y)));
            assert(s.contains((w - 1 - x, h - 1 - y)) <==> t.contains((w - 1 - x, h - 1 - y)));
        }
    }
    assert(a =~= b);
}

/// Painting one shape and then another in the same color paints their union.
pub proof fn painted_twice(
    p: Pixels,
    s: Set<(int, int)>,
    t: Set<(int, int)>,
    sym: Symmetry,
    color: Color,
)
    requires
        rectangular(p),
    ensures
        painted(painted(p, s, sym, color), t, sym, color) == painted(p, s.union(t), sym, color),
{
    let first = painted(p, s, sym, color);
    let a = painted(first, t, sym, color);
    let b = painted(p, s.union(t), sym, color);
    painted_keeps_shape(p, s, sym, color);
    assert forall|y: int| 0 <= y < a.len() implies #[trigger] a[y] =~= b[y] by {
        assert(first[y].len() == p[y].len());
    }
    assert(a =~= b);
}

/// Painting nothing changes nothing.
pub proof fn painted_nothing(p: Pixels, sym: Symmetry, color: Color)
    ensures
        painted(p, Set::empty(), sym, color) == p,
{
    let a = painted(p, Set::empty(), sym, color);
    assert forall|y: int| 0 <= y < a.len() implies #[trigger] a[y] =~= p[y] by {}
    assert(a =~= p);
}

/// With both axes mirrored, painting the point `(x, y)` of a grid paints it
/// and its three mirror images, and nothing else.
pub proof fn symmetric_point(p: Pixels, x: int, y: int, color: Color)
    requires
        rectangular(p),
        in_bounds(p, x, y),
    ensures
        ({
            let w = width_of(p) as int;
            let h = p.len() as int;
            let q = painted(p, set![(x, y)], Symmetry { horizontal: true, vertical: true }, color);
            &&& q[y][x] == color
            &&& q[y][w - 1 - x] == color
            &&& q[h - 1 - y][x] == color
            &&& q[h - 1 - y][w - 1 - x] == color
            &&& forall|i: int, j: int|
                0 <= j < h && 0 <= i < w && !((i == x || i == w - 1 - x) && (j == y || j == h - 1
                    - y)) ==> q[j][i] == p[j][i]
        }),
{
    let w = width_of(p) as int;
    let h = p.len() as int;
    assert(p[y].len() == w);
    assert(p[h - 1 - y].len() == w);
    let q = painted(p, set![(x, y)], Symmetry { horizontal: true, vertical: true }, color);
    assert forall|i: int, j: int|
        0 <= j < h && 0 <= i < w && !((i == x || i == w - 1 - x) && (j == y || j == h - 1
            - y)) implies q[j][i] == p[j][i] by {
        assert(p[j].len() == w);
    }
}

/// Paints the point `(x, y)` and, as far as `sym` asks, its mirror images.
/// A point outside the grid paints nothing.
pub fn paint_point(grid: &mut Vec<Vec<Color>>, x: usize, y: usize, color: Color, sym: Symmetry)
    requires
        rectangular(pixels(*old(grid))),
    ensures
        pixels(*final(grid)) == painted(pixels(*old(grid)), set![(x as int, y as int)], sym, color),
        rectangular(pixels(*final(grid))),
{
    let ghost before = pixels(*old(grid));
    let ghost shape = set![(x as int, y as int)];
    let height = grid.len();
    if y >= height {
        proof {
            painted_agree(before, shape, Set::empty(), sym, color);
            painted_nothing(before, sym, color);
        }
        return;
    }
    assert(before[0].len() == width_of(before));
    assert(before[y as int].len() == width_of(before));
    let width = grid[0].len();
    if x >= width {
        proof {
            painted_agree(before, shape, Set::empty(), sym, color);
            painted_nothing(before, sym, color);
        }
        return;
    }
    let mx = width - 1 - x;
    let my = height - 1 - y;
    assert(before[my as int].len() == width_of(before));
    grid[y][x] = color;
    if sym.horizontal {
        grid[y][mx] = color;
    }
    if sym.vertical {
        grid[my][x] = color;
    }
    if sym.horizontal && sym.vertical {
        grid[my][mx] = color;
    }
    proof {
        let after = pixels(*grid);
        let want = painted(before, shape, sym, color);
        assert forall|j: int| 0 <= j < after.len() implies #[trigger] after[j] =~= want[j] by {
            assert(before[j].len() == width_of(before));
        }
        assert(after =~= want);
        painted_keeps_shape(before, shape, sym, color);
    }
}

/// A shape that is painted by scanning its bounding box.
#[derive(Clone, Copy, Debug, PartialEq, Eq, Structural)]
pub enum Shape {
    /// Every point within Euclidean distance `radius` of `(cx, cy)`.
    Disc { cx: usize, cy: usize, radius: usize },
    /// Every point of the box between two corners, the corners included.
    Rect { min_x: usize, min_y: usize, max_x: usize, max_y: usize },
    /// The four edges of the box between two corners.
    RectOutline { min_x: usize, min_y: usize, max_x: usize, max_y: usize },
}

/// Whether `(x, y)` lies within Euclidean distance `radius` of `(cx, cy)`.
pub open spec fn in_disc(cx: int, cy: int, radius: int, x: int, y: int) -> bool {
    (x - cx) * (x - cx) + (y - cy) * (y - cy) <= radius * radius
}

/// Whether `(x, y)` lies in the box between two corners.
pub open spec fn in_rect(min_x: int, min_y: int, max_x: int, max_y: int, x: int, y: int) -> bool {
    min_x <= x <= max_x && min_y <= y <= max_y
}

/// Whether `(x, y)` lies on an edge of the box between two corners.
pub open spec fn on_rect_edge(
    min_x: int,
    min_y: int,
    max_x: int,
    max_y: int,
    x: int,
    y: int,
) -> bool {
    in_rect(min_x, min_y, max_x, max_y, x, y) && (x == min_x || x == max_x || y == min_y || y
        == max_y)
}

/// The points of a disc.
pub open spec fn disc(cx: int, cy: int, radius: int) -> Set<(int, int)> {
    Set::new(|q: (int, int)| in_disc(cx, cy, radius, q.0, q.1))
}

/// A square is at most the square of anything that is at least as far from
/// zero; and a number beyond the radius lies outside the disc on its own.
proof fn square_facts(d: int, r: int)
    requires
        d >= 0,
        r >= 0,
    ensures
        d * d >= 0,
        d <= r ==> d * d <= r * r,
        d > r ==> d * d > r * r,
        (-d) * (-d) == d * d,
{
    assert(d * d >= 0) by (nonlinear_arith);
    assert(d <= r ==> d * d <= r * r) by (nonlinear_arith)
        requires
            d >= 0,
            r >= 0,
    ;
    assert(d > r ==> d * d > r * r) by (nonlinear_arith)
        requires
            d >= 0,
            r >= 0,
    ;
    assert((-d) * (-d) == d * d) by (nonlinear_arith);
}

/// The distance between two coordinates.
fn gap(a: usize, b: usize) -> (d: usize)
    ensures
        d == if a >= b {
            a - b
        } else {
            b - a
        },
{
    if a >= b {
        a - b
    } else {
        b - a
    }
}

/// Whether `(x, y)` lies within `radius` of `(cx, cy)`.
pub fn disc_contains(cx: usize, cy: usize, radius: usize, x: usize, y: usize) -> (b: bool)
    ensures
        b == in_disc(cx as int, cy as int, radius as int, x as int, y as int),
{
    let dx = gap(x, cx);
    let dy = gap(y, cy);
    proof {
        square_facts(dx as int, radius as int);
        square_facts(dy as int, radius as int);
        assert((x - cx) * (x - cx) == dx * dx) by {
            if x < cx {
                assert(x - cx == -(dx as int));
            }
        }
        assert((y - cy) * (y - cy) == dy * dy) by {
            if y < cy {
                assert(y - cy == -(dy as int));
            }
        }
        square_facts(radius as int, usize::MAX as int);
        assert(usize::MAX * usize::MAX <= u128::MAX) by (nonlinear_arith)
            requires
                usize::MAX <= 0xffff_ffff_ffff_ffff,
        ;
    }
    if dx > radius || dy > radius {
        return false;
    }
    let r2: u128 = radius as u128 * radius as u128;
    let dx2: u128 = dx as u128 * dx as u128;
    let dy2: u128 = dy as u128 * dy as u128;
    dx2 <= r2 - dy2
}

impl Shape {
    /// The points of the shape.
    pub open spec fn points(self) -> Set<(int, int)> {
        match self {
            Shape::Disc { cx, cy, radius } => disc(cx as int, cy as int, radius as int),
            Shape::Rect { min_x, min_y, max_x, max_y } => Set::new(
                |q: (int, int)| in_rect(min_x as int, min_y as int, max_x as int, max_y as int, q.0, q.1),
            ),
            Shape::RectOutline { min_x, min_y, max_x, max_y } => Set::new(
                |q: (int, int)|
                    on_rect_edge(min_x as int, min_y as int, max_x as int, max_y as int, q.0, q.1),
            ),
        }
    }

    /// Whether `(x, y)` is a point of the shape.
    pub fn contains(&self, x: usize, y: usize) -> (b: bool)
        ensures
            b == self.points().contains((x as int, y as int)),
    {
        match *self {
            Shape::Disc { cx, cy, radius } => disc_contains(cx, cy, radius, x, y),
            Shape::Rect { min_x, min_y, max_x, max_y } => {
                min_x <= x && x <= max_x && min_y <= y && y <= max_y
            },
            Shape::RectOutline { min_x, min_y, max_x, max_y } => {
                min_x <= x && x <= max_x && min_y <= y && y <= max_y && (x == min_x || x == max_x
                    || y == min_y || y == max_y)
            },
        }
    }

    /// The columns `lo..hi` and rows `lo..hi` of a `width` by `height` grid
    /// outside which the shape has no point in the grid.
    pub fn window(&self, width: usize, height: usize) -> (win: (usize, usize, usize, usize))
        ensures
            win.0 <= win.1 <= width,
            win.2 <= win.3 <= height,
            forall|x: int, y: int|
                0 <= x < width && 0 <= y < height && self.points().contains((x, y)) ==> win.0 <= x
                    < win.1 && win.2 <= y < win.3,
    {
        let (x0, x1, y0, y1) = match *self {
            Shape::Disc { cx, cy, radius } => {
                let x0 = if cx > radius {
                    cx - radius
                } else {
                    0
                };
                let y0 = if cy > radius {
                    cy - radius
                } else {
                    0
                };
                let x1 = if cx < width && radius < width - cx {
                    cx + radius + 1
                } else {
                    width
                };
                let y1 = if cy < height && radius < height - cy {
                    cy + radius + 1
                } else {
                    height
                };
                proof {
                    assert forall|x: int, y: int|
                        0 <= x < width && 0 <= y < height && self.points().contains(
                            (x, y),
                        ) implies x0 <= x < x1 && y0 <= y < y1 by {
                        let dx = if x >= cx {
                            x - cx
                        } else {
                            cx - x
                        };
                        let dy = if y >= cy {
                            y - cy
                        } else {
                            cy - y
                        };
                        square_facts(dx, radius as int);
                        square_facts(dy, radius as int);
                        assert((x - cx) * (x - cx) == dx * dx);
                        assert((y - cy) * (y - cy) == dy * dy);
                    }
                }
                (x0, x1, y0, y1)
            },
            Shape::Rect { min_x, min_y, max_x, max_y } => {
                let x1 = if max_x < width {
                    max_x + 1
                } else {
                    width
                };
                let y1 = if max_y < height {
                    max_y + 1
                } else {
                    height
                };
                (min_x, x1, min_y, y1)
            },
            Shape::RectOutline { min_x, min_y, max_x, max_y } => {
                let x1 = if max_x < width {
                    max_x + 1
                } else {
                    width
                };
                let y1 = if max_y < height {
                    max_y + 1
                } else {
                    height
                };
                (min_x, x1, min_y, y1)
            },
        };
        let x0 = if x0 > x1 {
            x1
        } else {
            x0
        };
        let y0 = if y0 > y1 {
            y1
        } else {
            y0
        };
        (x0, x1, y0, y1)
    }
}

/// The points of `shape` in the columns `x0..x1` that a scan by rows has
/// passed when it stands at `(x, y)`, having started at row `y0`.
pub open spec fn scanned(
    shape: Set<(int, int)>,
    x0: int,
    x1: int,
    y0: int,
    x: int,
    y: int,
) -> Set<(int, int)> {
    Set::new(
        |q: (int, int)|
            shape.contains(q) && x0 <= q.0 < x1 && (y0 <= q.1 < y || (q.1 == y && q.0 < x)),
    )
}

/// Paints every point of `shape` that lies in the grid, mirrored as `sym`
/// asks.
pub fn paint_shape(grid: &mut Vec<Vec<Color>>, shape: Shape, color: Color, sym: Symmetry)
    requires
        rectangular(pixels(*old(grid))),
    ensures
        pixels(*final(grid)) == painted(pixels(*old(grid)), shape.points(), sym, color),
        rectangular(pixels(*final(grid))),
{
    let ghost before = pixels(*old(grid));
    let ghost pts = shape.points();
    let height = grid.len();
    let width = crate::grid::grid_width(grid);
    let (x0, x1, y0, y1) = shape.window(width, height);
    proof {
        painted_agree(before, scanned(pts, x0 as int, x1 as int, y0 as int, x0 as int, y0 as int), Set::empty(), sym, color);
        painted_nothing(before, sym, color);
    }
    let mut y: usize = y0;
    while y < y1
        invariant
            y0 <= y <= y1,
            x0 <= x1,
            pts == shape.points(),
            rectangular(before),
            rectangular(pixels(*grid)),
            pixels(*grid) == painted(
                before,
                scanned(pts, x0 as int, x1 as int, y0 as int, x0 as int, y as int),
                sym,
                color,
            ),
        decreases y1 - y,
    {
        let mut x: usize = x0;
        while x < x1
            invariant
                y0 <= y < y1,
                x0 <= x <= x1,
                pts == shape.points(),
                rectangular(before),
                rectangular(pixels(*grid)),
                pixels(*grid) == painted(
                    before,
                    scanned(pts, x0 as int, x1 as int, y0 as int, x as int, y as int),
                    sym,
                    color,
                ),
            decreases x1 - x,
        {
            let ghost done = scanned(pts, x0 as int, x1 as int, y0 as int, x as int, y as int);
            let ghost next = scanned(pts, x0 as int, x1 as int, y0 as int, x + 1, y as int);
            if shape.contains(x, y) {
                paint_point(grid, x, y, color, sym);
                proof {
                    painted_twice(before, done, set![(x as int, y as int)], sym, color);
                    assert(done.union(set![(x as int, y as int)]) =~= next);
                }
            } else {
                assert(done =~= next);
            }
            x += 1;
        }
        assert(scanned(pts, x0 as int, x1 as int, y0 as int, x1 as int, y as int) =~= scanned(
            pts,
            x0 as int,
            x1 as int,
            y0 as int,
            x0 as int,
            y + 1,
        ));
        y += 1;
    }
    proof {
        painted_agree(
            before,
            scanned(pts, x0 as int, x1 as int, y0 as int, x0 as int, y1 as int),
            pts,
            sym,
            color,
        );
    }
}

/// The points of the box of `w` by `h` pixels whose top left corner is
/// `(x, y)`.
pub open spec fn box_at(x: int, y: int, w: int, h: int) -> Set<(int, int)> {
    Set::new(|q: (int, int)| x <= q.0 < x + w && y <= q.1 < y + h)
}

/// The pixels of the box of `w` by `h` pixels at `(x, y)`, transparent
/// where the box lies outside the grid.
pub open spec fn cut_out(p: Pixels, x: int, y: int, w: nat, h: nat) -> Pixels {
    Seq::new(
        h,
        |dy: int|
            Seq::new(
                w,
                |dx: int| if in_bounds(p, x + dx, y + dy) {
                    p[y + dy][x + dx]
                } else {
                    Color::spec_transparent()
                },
            ),
    )
}

/// A copy of the box of `w` by `h` pixels at `(x, y)`.
pub fn copy_region(grid: &Vec<Vec<Color>>, x: usize, y: usize, w: usize, h: usize) -> (out: Vec<
    Vec<Color>,
>)
    ensures
        pixels(out) == cut_out(pixels(*grid), x as int, y as int, w as nat, h as nat),
{
    let ghost p = pixels(*grid);
    let ghost want = cut_out(p, x as int, y as int, w as nat, h as nat);
    let mut out: Vec<Vec<Color>> = Vec::new();
    let mut dy: usize = 0;
    while dy < h
        invariant
            dy <= h,
            p == pixels(*grid),
            want == cut_out(p, x as int, y as int, w as nat, h as nat),
            out.len() == dy,
            forall|j: int| 0 <= j < dy ==> (#[trigger] out[j])@ == want[j],
        decreases h - dy,
    {
        let mut row: Vec<Color> = Vec::new();
        let mut dx: usize = 0;
        while dx < w
            invariant
                dx <= w,
                dy < h,
                p == pixels(*grid),
                want == cut_out(p, x as int, y as int, w as nat, h as nat),
                row.len() == dx,
                forall|i: int| 0 <= i < dx ==> (#[trigger] row[i]) == want[dy as int][i],
            decreases w - dx,
        {
            let px: u128 = x as u128 + dx as u128;
            let py: u128 = y as u128 + dy as u128;
            if py < grid.len() as u128 && px < grid[py as usize].len() as u128 {
                row.push(grid[py as usize][px as usize]);
            } else {
                row.push(Color::transparent());
            }
            dx += 1;
        }
        assert(row@ =~= want[dy as int]);
        out.push(row);
        dy += 1;
    }
    assert(pixels(out) =~= want);
    out
}

/// Makes the box of `w` by `h` pixels at `(x, y)` transparent.
pub fn clear_region(grid: &mut Vec<Vec<Color>>, x: usize, y: usize, w: usize, h: usize)
    requires
        rectangular(pixels(*old(grid))),
    ensures
        pixels(*final(grid)) == painted(
            pixels(*old(grid)),
            box_at(x as int, y as int, w as int, h as int),
            Symmetry::spec_none(),
            Color::spec_transparent(),
        ),
        rectangular(pixels(*final(grid))),
{
    let ghost before = pixels(*grid);
    let ghost area = box_at(x as int, y as int, w as int, h as int);
    let ghost none = Symmetry::spec_none();
    let ghost clear = Color::spec_transparent();
    proof {
        assert(before.len() <= usize::MAX);
        if before.len() > 0 {
            assert(before[0].len() == grid[0].len());
        }
    }
    if w == 0 || h == 0 {
        proof {
            painted_agree(before, area, Set::empty(), none, clear);
            painted_nothing(before, none, clear);
        }
        return;
    }
    let max_x = if w - 1 <= usize::MAX - x {
        x + (w - 1)
    } else {
        usize::MAX
    };
    let max_y = if h - 1 <= usize::MAX - y {
        y + (h - 1)
    } else {
        usize::MAX
    };
    let shape = Shape::Rect { min_x: x, min_y: y, max_x, max_y };
    paint_shape(grid, shape, Color::transparent(), Symmetry::none());
    proof {
        painted_agree(before, shape.points(), area, none, clear);
    }
}

} // verus!
