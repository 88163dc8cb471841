//! Straight lines between two points of the pixel lattice.
//!
//! A line takes one sample for every step along its longer axis. The
//! sample's coordinate on the shorter axis is the lattice point nearest to
//! the ideal line, a tie going to the side of the start.

use vstd::prelude::*;
use crate::color::Color;
use crate::grid::{pixels, rectangular};
use crate::paint::{Symmetry, painted, painted_twice, painted_agree, painted_nothing, paint_point};

verus! {

/// The distance between two coordinates.
pub open spec fn span(a: int, b: int) -> int {
    if a >= b {
        a - b
    } else {
        b - a
    }
}

/// The direction of a step from `a` toward `b`.
pub open spec fn toward(a: int, b: int) -> int {
    if a < b {
        1
    } else {
        -1
    }
}

/// How far a line has moved along its shorter axis after `k` steps along
/// the longer one: `k * small / big` rounded to the nearest integer, a half
/// rounded down.
pub open spec fn minor_steps(k: int, small: int, big: int) -> int {
    if big <= 0 {
        0
    } else {
        (2 * k * small + big - 1) / (2 * big)
    }
}

/// The number of steps from one end of a line to the other.
pub open spec fn line_steps(x0: int, y0: int, x1: int, y1: int) -> int {
    if span(x1, x0) >= span(y1, y0) {
        span(x1, x0)
    } else {
        span(y1, y0)
    }
}

/// The `k`-th sample of the line from `(x0, y0)` to `(x1, y1)`.
pub open spec fn line_point(x0: int, y0: int, x1: int, y1: int, k: int) -> (int, int) {
    let dx = span(x1, x0);
    let dy = span(y1, y0);
    if dx >= dy {
        (x0 + toward(x0, x1) * k, y0 + toward(y0, y1) * minor_steps(k, dy, dx))
    } else {
        (x0 + toward(x0, x1) * minor_steps(k, dx, dy), y0 + toward(y0, y1) * k)
    }
}

/// The first `n` samples of a line.
pub open spec fn line_prefix(x0: int, y0: int, x1: int, y1: int, n: int) -> Set<(int, int)> {
    Set::new(|q: (int, int)| exists|k: int| 0 <= k < n && q == #[trigger] line_point(x0, y0, x1, y1, k))
}

/// The samples of the line from `(x0, y0)` to `(x1, y1)`, both ends included.
pub open spec fn line(x0: int, y0: int, x1: int, y1: int) -> Set<(int, int)> {
    line_prefix(x0, y0, x1, y1, line_steps(x0, y0, x1, y1) + 1)
}

/// A quotient is known from the multiples of the divisor around the dividend.
proof fn quotient_between(v: int, d: int, n: int)
    requires
        d > 0,
        n * d <= v < (n + 1) * d,
    ensures
        v / d == n,
{
    assert((n + 1) * d == n * d + d) by (nonlinear_arith);
    vstd::arithmetic::div_mod::lemma_fundamental_div_mod_converse(v, d, n, v - n * d);
}

/// A line starts at its first point and ends at its second.
pub proof fn line_has_both_ends(x0: int, y0: int, x1: int, y1: int)
    ensures
        line_point(x0, y0, x1, y1, 0) == (x0, y0),
        line_point(x0, y0, x1, y1, line_steps(x0, y0, x1, y1)) == (x1, y1),
        line(x0, y0, x1, y1).contains((x0, y0)),
        line(x0, y0, x1, y1).contains((x1, y1)),
{
    let dx = span(x1, x0);
    let dy = span(y1, y0);
    let n = line_steps(x0, y0, x1, y1);
    if dx >= dy {
        if dx > 0 {
            assert(2 * 0 * dy == 0) by (nonlinear_arith);
            assert(0 * (2 * dx) == 0 && (0 + 1) * (2 * dx) == 2 * dx) by (nonlinear_arith);
            quotient_between(2 * 0 * dy + dx - 1, 2 * dx, 0);
            assert(2 * dx * dy + dx - 1 < (dy + 1) * (2 * dx)) by (nonlinear_arith)
                requires
                    dx > 0,
            ;
            assert(dy * (2 * dx) <= 2 * dx * dy + dx - 1) by (nonlinear_arith)
                requires
                    dx > 0,
            ;
            quotient_between(2 * dx * dy + dx - 1, 2 * dx, dy);
        }
        assert(minor_steps(0, dy, dx) == 0);
        assert(minor_steps(dx, dy, dx) == dy);
    } else {
        assert(2 * 0 * dx == 0) by (nonlinear_arith);
        assert(0 * (2 * dy) == 0 && (0 + 1) * (2 * dy) == 2 * dy) by (nonlinear_arith);
        quotient_between(2 * 0 * dx + dy - 1, 2 * dy, 0);
        assert(2 * dy * dx + dy - 1 < (dx + 1) * (2 * dy)) by (nonlinear_arith)
            requires
                dy > 0,
        ;
        assert(dx * (2 * dy) <= 2 * dy * dx + dy - 1) by (nonlinear_arith)
            requires
                dy > 0,
        ;
        quotient_between(2 * dy * dx + dy - 1, 2 * dy, dx);
        assert(minor_steps(0, dx, dy) == 0);
        assert(minor_steps(dy, dx, dy) == dx);
    }
    assert(toward(x0, x1) * 0 == 0);
    assert(toward(y0, y1) * 0 == 0);
    assert(toward(x0, x1) * dx == x1 - x0) by (nonlinear_arith)
        requires
            dx == span(x1, x0),
            toward(x0, x1) == if x0 < x1 {
                1int
            } else {
                -1int
            },
    ;
    assert(toward(y0, y1) * dy == y1 - y0) by (nonlinear_arith)
        requires
            dy == span(y1, y0),
            toward(y0, y1) == if y0 < y1 {
                1int
            } else {
                -1int
            },
    ;
    assert(line_point(x0, y0, x1, y1, 0) == (x0, y0));
    assert(line_point(x0, y0, x1, y1, n) == (x1, y1));
}

/// Paints the point `(x, y)`, which may lie anywhere in the plane, and its
/// mirror images. Outside the grid nothing is painted.
pub fn paint_at(grid: &mut Vec<Vec<Color>>, x: i128, y: i128, color: Color, sym: Symmetry)
    requires
        rectangular(pixels(*old(grid))),
    ensures
        pixels(*final(grid)) == painted(pixels(*old(grid)), set![(x as int, y as int)], sym, color),
        rectangular(pixels(*final(grid))),
{
    if 0 <= x && x <= usize::MAX as i128 && 0 <= y && y <= usize::MAX as i128 {
        paint_point(grid, x as usize, y as usize, color, sym);
    } else {
        proof {
            let p = pixels(*grid);
            assert(p.len() <= usize::MAX);
            if p.len() > 0 {
                assert(p[0].len() == grid[0].len());
            }
            painted_agree(pixels(*grid), set![(x as int, y as int)], Set::empty(), sym, color);
            painted_nothing(pixels(*grid), sym, color);
        }
    }
}

/// Paints the line from `(x0, y0)` to `(x1, y1)`, mirrored as `sym` asks.
pub fn paint_line(
    grid: &mut Vec<Vec<Color>>,
    x0: usize,
    y0: usize,
    x1: usize,
    y1: usize,
    color: Color,
    sym: Symmetry,
)
    requires
        rectangular(pixels(*old(grid))),
    ensures
        pixels(*final(grid)) == painted(
            pixels(*old(grid)),
            line(x0 as int, y0 as int, x1 as int, y1 as int),
            sym,
            color,
        ),
        rectangular(pixels(*final(grid))),
{
    let ghost before = pixels(*old(grid));
    let dx: i128 = if x1 >= x0 {
        (x1 - x0) as i128
    } else {
        (x0 - x1) as i128
    };
    let dy: i128 = if y1 >= y0 {
        (y1 - y0) as i128
    } else {
        (y0 - y1) as i128
    };
    let sx: i128 = if x0 < x1 {
        1
    } else {
        -1
    };
    let sy: i128 = if y0 < y1 {
        1
    } else {
        -1
    };
    let mut err: i128 = dx - dy;
    let mut x: i128 = x0 as i128;
    let mut y: i128 = y0 as i128;
    let ghost big: int = line_steps(x0 as int, y0 as int, x1 as int, y1 as int);
    let ghost mut k: int = 0;
    let ghost mut nx: int = 0;
    let ghost mut ny: int = 0;
    // The products nx * dy and ny * dx, kept linear for the solver.
    let ghost mut across: int = 0;
    let ghost mut along: int = 0;
    proof {
        assert(line_prefix(x0 as int, y0 as int, x1 as int, y1 as int, 0) =~= Set::empty());
        painted_nothing(before, sym, color);
    }
    loop
        invariant_except_break
            pixels(*grid) == painted(
                before,
                line_prefix(x0 as int, y0 as int, x1 as int, y1 as int, k),
                sym,
                color,
            ),
        invariant
            rectangular(before),
            rectangular(pixels(*grid)),
            dx == span(x1 as int, x0 as int),
            dy == span(y1 as int, y0 as int),
            sx == toward(x0 as int, x1 as int),
            sy == toward(y0 as int, y1 as int),
            big == line_steps(x0 as int, y0 as int, x1 as int, y1 as int),
            0 <= k <= big,
            0 <= nx <= k,
            0 <= ny <= k,
            dx >= dy ==> nx == k,
            dx < dy ==> ny == k,
            across == nx * dy,
            along == ny * dx,
            err == dx - dy - across + along,
            dx >= dy ==> 2 * along <= 2 * across + dx - 1 + (if dx == 0 { 1int } else { 0int }),
            dx >= dy && dx > 0 ==> 2 * across + dx - 1 < 2 * along + 2 * dx,
            dx < dy ==> 2 * across <= 2 * along + dy - 1,
            dx < dy ==> 2 * along + dy - 1 < 2 * across + 2 * dy,
            x == x0 + sx * nx,
            y == y0 + sy * ny,
        ensures
            pixels(*grid) == painted(
                before,
                line(x0 as int, y0 as int, x1 as int, y1 as int),
                sym,
                color,
            ),
            rectangular(pixels(*grid)),
        decreases big - k,
    {
        proof {
            // The current position is the k-th sample.
            if dx >= dy {
                if dx > 0 {
                    assert(2 * k * dy == 2 * across) by (nonlinear_arith)
                        requires
                            across == nx * dy,
                            nx == k,
                    ;
                    assert(ny * (2 * dx) == 2 * along) by (nonlinear_arith)
                        requires
                            along == ny * dx,
                    ;
                    assert((ny + 1) * (2 * dx) == 2 * along + 2 * dx) by (nonlinear_arith)
                        requires
                            along == ny * dx,
                    ;
                    quotient_between(2 * k * dy + dx - 1, 2 * dx, ny);
                }
                assert(minor_steps(k, dy as int, dx as int) == ny);
            } else {
                assert(2 * k * dx == 2 * along) by (nonlinear_arith)
                    requires
                        along == ny * dx,
                        ny == k,
                ;
                assert(nx * (2 * dy) == 2 * across) by (nonlinear_arith)
                    requires
                        across == nx * dy,
                ;
                assert((nx + 1) * (2 * dy) == 2 * across + 2 * dy) by (nonlinear_arith)
                    requires
                        across == nx * dy,
                ;
                quotient_between(2 * k * dx + dy - 1, 2 * dy, nx);
                assert(minor_steps(k, dx as int, dy as int) == nx);
            }
            assert(line_point(x0 as int, y0 as int, x1 as int, y1 as int, k) == (x as int, y as int));
        }
        let ghost done = line_prefix(x0 as int, y0 as int, x1 as int, y1 as int, k);
        let ghost next = line_prefix(x0 as int, y0 as int, x1 as int, y1 as int, k + 1);
        paint_at(grid, x, y, color, sym);
        proof {
            painted_twice(before, done, set![(x as int, y as int)], sym, color);
            assert(done.union(set![(x as int, y as int)]) =~= next);
            assert(sx * nx == if x0 < x1 { nx } else { -nx }) by (nonlinear_arith)
                requires
                    sx == 1 || sx == -1,
                    (x0 < x1) == (sx == 1),
            ;
            assert(sy * ny == if y0 < y1 { ny } else { -ny }) by (nonlinear_arith)
                requires
                    sy == 1 || sy == -1,
                    (y0 < y1) == (sy == 1),
            ;
            if dx >= dy && k < big {
                // The longer axis has not arrived yet.
                assert(x != x1);
            }
            if dx < dy && k < big {
                assert(y != y1);
            }
            if k == big {
                line_has_both_ends(x0 as int, y0 as int, x1 as int, y1 as int);
            }
        }
        if x == x1 as i128 && y == y1 as i128 {
            break;
        }
        let e2: i128 = 2 * err;
        let step_x: bool = e2 > -dy;
        let step_y: bool = e2 < dx;
        proof {
            if dx >= dy {
                if dx == dy {
                    assert(ny == k) by (nonlinear_arith)
                        requires
                            across == nx * dy,
                            along == ny * dx,
                            nx == k,
                            dx == dy,
                            dx > 0,
                            2 * along <= 2 * across + dx - 1,
                            2 * across + dx - 1 < 2 * along + 2 * dx,
                    ;
                    assert(along == across);
                }
                assert(step_x);
            } else {
                assert(step_y);
            }
        }
        if step_x {
            err = err - dy;
            x = x + sx;
            proof {
                assert((nx + 1) * dy == across + dy) by (nonlinear_arith)
                    requires
                        across == nx * dy,
                ;
                assert(sx * (nx + 1) == sx * nx + sx) by (nonlinear_arith);
                nx = nx + 1;
                across = across + dy;
            }
        }
        if step_y {
            err = err + dx;
            y = y + sy;
            proof {
                assert((ny + 1) * dx == along + dx) by (nonlinear_arith)
                    requires
                        along == ny * dx,
                ;
                assert(sy * (ny + 1) == sy * ny + sy) by (nonlinear_arith);
                ny = ny + 1;
                along = along + dx;
            }
        }
        proof {
            k = k + 1;
        }
    }
}

} // verus!
