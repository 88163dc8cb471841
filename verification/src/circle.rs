//! Circle outlines on the pixel lattice.
//!
//! An outline is drawn one octant at a time: for every column `a` of the
//! octant between the vertical axis and the diagonal, the row `b` nearest to
//! the circle, and the seven reflections of that point. "Nearest" means that
//! the circle passes between the midpoints below and above `b`:
//! `b (b - 1) < r² - a² <= b (b + 1)`.

use vstd::prelude::*;
use crate::color::Color;
use crate::grid::{pixels, rectangular};
use crate::paint::{Symmetry, painted, painted_twice, painted_nothing};
use crate::line::{span, paint_at};

verus! {

/// Whether `(a, b)`, with `0 <= a <= b`, is the sample of the first octant
/// of a circle of radius `r` in column `a`. A circle of radius zero is its
/// center.
pub open spec fn on_octant(r: int, a: int, b: int) -> bool {
    if r <= 0 {
        a == 0 && b == 0
    } else {
        0 <= a <= b && b * (b - 1) < r * r - a * a <= b * (b + 1)
    }
}

/// The smaller of two numbers.
pub open spec fn lesser(a: int, b: int) -> int {
    if a <= b {
        a
    } else {
        b
    }
}

/// The larger of two numbers.
pub open spec fn greater(a: int, b: int) -> int {
    if a <= b {
        b
    } else {
        a
    }
}

/// Whether `(x, y)` is on the outline of the circle of radius `r` around
/// `(cx, cy)`: its offsets from the center, the smaller first, are a sample
/// of the first octant.
pub open spec fn on_circle(cx: int, cy: int, r: int, x: int, y: int) -> bool {
    on_octant(r, lesser(span(x, cx), span(y, cy)), greater(span(x, cx), span(y, cy)))
}

/// The outline of the circle of radius `r` around `(cx, cy)`.
pub open spec fn circle(cx: int, cy: int, r: int) -> Set<(int, int)> {
    Set::new(|q: (int, int)| on_circle(cx, cy, r, q.0, q.1))
}

/// The part of an outline whose samples lie in the columns before `a` of
/// the first octant.
pub open spec fn circle_before(cx: int, cy: int, r: int, a: int) -> Set<(int, int)> {
    Set::new(
        |q: (int, int)|
            on_circle(cx, cy, r, q.0, q.1) && lesser(span(q.0, cx), span(q.1, cy)) < a,
    )
}

/// The eight reflections of the offset `(a, b)` around `(cx, cy)`.
pub open spec fn reflections(cx: int, cy: int, a: int, b: int) -> Set<(int, int)> {
    set![
        (cx + a, cy + b),
        (cx + a, cy - b),
        (cx - a, cy + b),
        (cx - a, cy - b),
        (cx + b, cy + a),
        (cx + b, cy - a),
        (cx - b, cy + a),
        (cx - b, cy - a),
    ]
}

/// In a column of the first octant there is one sample only.
proof fn octant_sample_is_unique(r: int, a: int, b: int, c: int)
    requires
        r > 0,
        b >= 0,
        c >= 0,
        b * (b - 1) < r * r - a * a <= b * (b + 1),
        c * (c - 1) < r * r - a * a <= c * (c + 1),
    ensures
        b == c,
{
    if b < c {
        assert(c * (c - 1) >= b * (b + 1)) by (nonlinear_arith)
            requires
                0 <= b,
                b + 1 <= c,
        ;
    }
    if c < b {
        assert(b * (b - 1) >= c * (c + 1)) by (nonlinear_arith)
            requires
                0 <= c,
                c + 1 <= b,
        ;
    }
}

/// Beyond a column whose sample is at most `b`, no sample is above `b`.
proof fn octant_samples_descend(r: int, a: int, b: int, a2: int, b2: int)
    requires
        r > 0,
        0 <= a <= a2,
        b >= -1,
        b2 >= 0,
        r * r - a * a <= b * (b + 1),
        b2 * (b2 - 1) < r * r - a2 * a2,
    ensures
        b2 <= b,
{
    assert(a * a <= a2 * a2) by (nonlinear_arith)
        requires
            0 <= a <= a2,
    ;
    if b2 > b {
        assert(b2 * (b2 - 1) >= b * (b + 1)) by (nonlinear_arith)
            requires
                b >= -1,
                b2 >= b + 1,
        ;
    }
}

/// The outline of a circle of radius `r >= 1` has the cardinal points.
pub proof fn circle_has_cardinal_points(cx: int, cy: int, r: int)
    requires
        r >= 1,
    ensures
        circle(cx, cy, r).contains((cx + r, cy)),
        circle(cx, cy, r).contains((cx - r, cy)),
        circle(cx, cy, r).contains((cx, cy + r)),
        circle(cx, cy, r).contains((cx, cy - r)),
{
    assert(r * (r - 1) < r * r - 0 * 0 <= r * (r + 1)) by (nonlinear_arith)
        requires
            r >= 1,
    ;
    assert(on_octant(r, 0, r));
}

/// Paints the outline of the circle of radius `radius` around `(cx, cy)`,
/// mirrored as `sym` asks.
pub fn paint_circle_outline(
    grid: &mut Vec<Vec<Color>>,
    cx: usize,
    cy: usize,
    radius: usize,
    color: Color,
    sym: Symmetry,
)
    requires
        rectangular(pixels(*old(grid))),
    ensures
        pixels(*final(grid)) == painted(
            pixels(*old(grid)),
            circle(cx as int, cy as int, radius as int),
            sym,
            color,
        ),
        rectangular(pixels(*final(grid))),
{
    let ghost before = pixels(*old(grid));
    let ghost r: int = radius as int;
    let ghost gx: int = cx as int;
    let ghost gy: int = cy as int;
    let px: i128 = cx as i128;
    let py: i128 = cy as i128;
    if radius == 0 {
        paint_at(grid, px, py, color, sym);
        assert(circle(gx, gy, r) =~= set![(gx, gy)]);
        return;
    }
    let mut a: i128 = 0;
    let mut b: i128 = radius as i128;
    let mut d: i128 = 1 - radius as i128;
    proof {
        assert(circle_before(gx, gy, r, 0) =~= Set::empty());
        painted_nothing(before, sym, color);
        assert(r * (r - 1) < r * r - 0 * 0 <= r * (r + 1)) by (nonlinear_arith)
            requires
                r >= 1,
        ;
        assert(0 * 0 + r * r - r * r + 2 * 0 - r + 1 == 1 - r) by (nonlinear_arith);
    }
    while a <= b
        invariant
            rectangular(before),
            rectangular(pixels(*grid)),
            r == radius,
            r >= 1,
            gx == cx,
            gy == cy,
            px == cx,
            py == cy,
            0 <= a <= r + 1,
            -1 <= b <= r,
            a <= b + 2,
            d == a * a + b * b - r * r + 2 * a - b + 1,
            r * r - a * a <= b * (b + 1),
            a <= b ==> b * (b - 1) < r * r - a * a,
            pixels(*grid) == painted(before, circle_before(gx, gy, r, a as int), sym, color),
        decreases b - a + 2,
    {
        let ghost done = circle_before(gx, gy, r, a as int);
        let ghost ring = reflections(gx, gy, a as int, b as int);
        let ghost next = circle_before(gx, gy, r, a + 1);
        paint_at(grid, px + a, py + b, color, sym);
        paint_at(grid, px + a, py - b, color, sym);
        paint_at(grid, px - a, py + b, color, sym);
        paint_at(grid, px - a, py - b, color, sym);
        paint_at(grid, px + b, py + a, color, sym);
        paint_at(grid, px + b, py - a, color, sym);
        paint_at(grid, px - b, py + a, color, sym);
        paint_at(grid, px - b, py - a, color, sym);
        proof {
            let s1 = done.union(set![(gx + a, gy + b)]);
            let s2 = s1.union(set![(gx + a, gy - b)]);
            let s3 = s2.union(set![(gx - a, gy + b)]);
            let s4 = s3.union(set![(gx - a, gy - b)]);
            let s5 = s4.union(set![(gx + b, gy + a)]);
            let s6 = s5.union(set![(gx + b, gy - a)]);
            let s7 = s6.union(set![(gx - b, gy + a)]);
            let s8 = s7.union(set![(gx - b, gy - a)]);
            painted_twice(before, done, set![(gx + a, gy + b)], sym, color);
            painted_twice(before, s1, set![(gx + a, gy - b)], sym, color);
            painted_twice(before, s2, set![(gx - a, gy + b)], sym, color);
            painted_twice(before, s3, set![(gx - a, gy - b)], sym, color);
            painted_twice(before, s4, set![(gx + b, gy + a)], sym, color);
            painted_twice(before, s5, set![(gx + b, gy - a)], sym, color);
            painted_twice(before, s6, set![(gx - b, gy + a)], sym, color);
            painted_twice(before, s7, set![(gx - b, gy - a)], sym, color);
            assert(s8 =~= done.union(ring));
            assert(on_octant(r, a as int, b as int));
            assert forall|q: (int, int)| next.contains(q) <==> done.union(ring).contains(q) by {
                let u = span(q.0, gx);
                let v = span(q.1, gy);
                if on_circle(gx, gy, r, q.0, q.1) && lesser(u, v) == a {
                    octant_sample_is_unique(r, a as int, b as int, greater(u, v));
                }
            }
            assert(next =~= done.union(ring));
        }
        proof {
            // The decision value stays near zero: the sample is near the circle.
            assert(d >= 2 * a - 2 * b + 1) by (nonlinear_arith)
                requires
                    d == a * a + b * b - r * r + 2 * a - b + 1,
                    r * r - a * a <= b * (b + 1),
            ;
            assert(d < 2 * a + 1) by (nonlinear_arith)
                requires
                    d == a * a + b * b - r * r + 2 * a - b + 1,
                    b * (b - 1) < r * r - a * a,
            ;
        }
        if d < 0 {
            proof {
                assert((a + 1) * (a + 1) + b * b - r * r + 2 * (a + 1) - b + 1 == d + 2 * a + 3)
                    by (nonlinear_arith)
                    requires
                        d == a * a + b * b - r * r + 2 * a - b + 1,
                ;
                assert(b * (b - 1) < r * r - (a + 1) * (a + 1)) by (nonlinear_arith)
                    requires
                        d < 0,
                        d == a * a + b * b - r * r + 2 * a - b + 1,
                ;
                assert(r * r - (a + 1) * (a + 1) <= b * (b + 1)) by (nonlinear_arith)
                    requires
                        r * r - a * a <= b * (b + 1),
                        a >= 0,
                ;
            }
            d = d + 2 * a + 3;
        } else {
            proof {
                assert((a + 1) * (a + 1) + (b - 1) * (b - 1) - r * r + 2 * (a + 1) - (b - 1) + 1
                    == d + 2 * (a - b) + 5) by (nonlinear_arith)
                    requires
                        d == a * a + b * b - r * r + 2 * a - b + 1,
                ;
                assert(r * r - (a + 1) * (a + 1) <= (b - 1) * ((b - 1) + 1)) by (nonlinear_arith)
                    requires
                        d >= 0,
                        d == a * a + b * b - r * r + 2 * a - b + 1,
                ;
                assert(a + 1 <= b - 1 ==> (b - 1) * ((b - 1) - 1) < r * r - (a + 1) * (a + 1))
                    by (nonlinear_arith)
                    requires
                        b * (b - 1) < r * r - a * a,
                ;
            }
            d = d + 2 * (a - b) + 5;
            b = b - 1;
        }
        a = a + 1;
    }
    proof {
        let done = circle_before(gx, gy, r, a as int);
        let all = circle(gx, gy, r);
        assert forall|q: (int, int)| all.contains(q) implies done.contains(q) by {
            let u = lesser(span(q.0, gx), span(q.1, gy));
            let v = greater(span(q.0, gx), span(q.1, gy));
            if u >= a {
                octant_samples_descend(r, a as int, b as int, u, v);
            }
        }
        assert(done =~= all);
    }
}

/// `r` is the square root of `s`, rounded down.
pub open spec fn is_root_floor(s: int, r: int) -> bool {
    r >= 0 && r * r <= s < (r + 1) * (r + 1)
}

/// The square root of `s`, rounded down.
pub open spec fn root_floor(s: int) -> int {
    choose|r: int| is_root_floor(s, r)
}

/// The Euclidean distance from `(cx, cy)` to `(x, y)`, rounded down, and
/// no more than a `usize` can hold: the radius of the circle around the
/// first point that the second one picks.
pub open spec fn picked_radius(cx: int, cy: int, x: int, y: int) -> int {
    let d = root_floor((x - cx) * (x - cx) + (y - cy) * (y - cy));
    if d <= usize::MAX {
        d
    } else {
        usize::MAX as int
    }
}

/// Squares grow with their roots.
proof fn squares_grow(a: int, b: int)
    requires
        0 <= a <= b,
    ensures
        a * a <= b * b,
{
    assert(a * a <= b * b) by (nonlinear_arith)
        requires
            0 <= a <= b,
    ;
}

/// Every natural number has a square root rounded down.
pub proof fn root_floor_exists(s: int)
    requires
        s >= 0,
    ensures
        is_root_floor(s, root_floor(s)),
    decreases s,
{
    if s == 0 {
        assert(is_root_floor(0, 0));
    } else {
        root_floor_exists(s - 1);
        let r = root_floor(s - 1);
        if (r + 1) * (r + 1) <= s {
            assert((r + 2) * (r + 2) > (r + 1) * (r + 1)) by (nonlinear_arith)
                requires
                    r >= 0,
            ;
            assert(is_root_floor(s, r + 1));
        } else {
            assert(is_root_floor(s, r));
        }
    }
}

/// No number has two square roots rounded down, and none whose square is
/// at most `s` lies above the root of `s`.
pub proof fn root_floor_is(s: int, r: int)
    requires
        is_root_floor(s, r),
    ensures
        root_floor(s) == r,
        forall|q: int| 0 <= q && #[trigger] (q * q) <= s ==> q <= r,
{
    let c = root_floor(s);
    assert(is_root_floor(s, c));
    if c < r {
        squares_grow(c + 1, r);
    }
    if r < c {
        squares_grow(r + 1, c);
    }
    assert forall|q: int| 0 <= q && #[trigger] (q * q) <= s implies q <= r by {
        if q > r {
            squares_grow(r + 1, q);
        }
    }
}

/// The distance from `(cx, cy)` to `(x, y)`, rounded down: the radius of
/// the circle around the first point that passes nearest below the second.
pub fn radius_between(cx: usize, cy: usize, x: usize, y: usize) -> (radius: usize)
    ensures
        radius == picked_radius(cx as int, cy as int, x as int, y as int),
{
    let dx: u128 = if x >= cx {
        (x - cx) as u128
    } else {
        (cx - x) as u128
    };
    let dy: u128 = if y >= cy {
        (y - cy) as u128
    } else {
        (cy - y) as u128
    };
    let ghost s: int = (x - cx) * (x - cx) + (y - cy) * (y - cy);
    proof {
        assert((x - cx) * (x - cx) == dx * dx) by (nonlinear_arith)
            requires
                dx == x - cx || dx == cx - x,
        ;
        assert((y - cy) * (y - cy) == dy * dy) by (nonlinear_arith)
            requires
                dy == y - cy || dy == cy - y,
        ;
        squares_grow(dx as int, usize::MAX as int);
        squares_grow(dy as int, usize::MAX as int);
        assert(usize::MAX * usize::MAX <= u128::MAX) by (nonlinear_arith)
            requires
                usize::MAX <= 0xffff_ffff_ffff_ffff,
        ;
        assert(s >= 0) by (nonlinear_arith)
            requires
                s == dx * dx + dy * dy,
        ;
        root_floor_exists(s);
    }
    let dx2: u128 = dx * dx;
    let dy2: u128 = dy * dy;
    if dx2 > u128::MAX - dy2 {
        proof {
            // The distance is beyond what a `usize` holds.
            let far = usize::MAX as int + 1;
            assert(far * far <= u128::MAX + 1) by (nonlinear_arith)
                requires
                    far <= 0x1_0000_0000_0000_0000,
                    far >= 0,
            ;
            let r = root_floor(s);
            if r <= usize::MAX {
                squares_grow(r + 1, far);
            }
        }
        return usize::MAX;
    }
    let sum: u128 = dx2 + dy2;
    let mut lo: usize = 0;
    let mut hi: usize = usize::MAX;
    while lo < hi
        invariant
            lo <= hi,
            sum == s,
            lo * lo <= s,
            hi == usize::MAX || (hi + 1) * (hi + 1) > s,
        decreases hi - lo,
    {
        let mid: usize = lo + (hi - lo - 1) / 2 + 1;
        proof {
            squares_grow(mid as int, usize::MAX as int);
            assert(usize::MAX * usize::MAX <= u128::MAX) by (nonlinear_arith)
                requires
                    usize::MAX <= 0xffff_ffff_ffff_ffff,
            ;
        }
        let square: u128 = mid as u128 * mid as u128;
        if square <= sum {
            lo = mid;
        } else {
            hi = mid - 1;
        }
    }
    proof {
        if (lo + 1) * (lo + 1) > s {
            root_floor_is(s, lo as int);
        } else {
            let r = root_floor(s);
            if r <= lo {
                squares_grow(r + 1, lo + 1);
            }
        }
    }
    lo
}

} // verus!
