//! Flood fill: recoloring the region of one color around a seed pixel.
//!
//! The region of a seed is every pixel that a path of horizontally or
//! vertically adjacent pixels of the seed's color joins to the seed.

use vstd::prelude::*;
use vstd::set_lib::lemma_set_subset_finite;
use crate::color::Color;
use crate::grid::{Pixels, pixels, width_of, rectangular, in_bounds, filled};
use crate::paint::{Symmetry, painted, painted_nothing, painted_keeps_shape};

verus! {

/// Two lattice points that share an edge.
pub open spec fn adjacent(a: (int, int), b: (int, int)) -> bool {
    ||| a.1 == b.1 && (a.0 == b.0 + 1 || a.0 + 1 == b.0)
    ||| a.0 == b.0 && (a.1 == b.1 + 1 || a.1 + 1 == b.1)
}

/// `q` is a pixel of `p` and holds the color `c`.
pub open spec fn colored(p: Pixels, q: (int, int), c: Color) -> bool {
    in_bounds(p, q.0, q.1) && p[q.1][q.0] == c
}

/// A walk over pixels of color `c`, each adjacent to the next.
pub open spec fn is_path(p: Pixels, c: Color, path: Seq<(int, int)>) -> bool {
    &&& path.len() > 0
    &&& forall|i: int| 0 <= i < path.len() ==> colored(p, #[trigger] path[i], c)
    &&& forall|i: int| 0 <= i < path.len() - 1 ==> adjacent(#[trigger] path[i], path[i + 1])
}

/// `a` and `b` are joined by a walk over pixels of color `c`.
pub open spec fn connected(p: Pixels, c: Color, a: (int, int), b: (int, int)) -> bool {
    exists|path: Seq<(int, int)>| #[trigger] is_path(p, c, path) && path[0] == a && path.last() == b
}

/// The pixels joined to the seed `(sx, sy)` by a walk over its color.
pub open spec fn region(p: Pixels, sx: int, sy: int) -> Set<(int, int)> {
    Set::new(|q: (int, int)| connected(p, p[sy][sx], (sx, sy), q))
}

/// The grid after a flood fill at `(sx, sy)`: the seed's region holds
/// `fill`, every other pixel is as before. A seed outside the grid, or one
/// that already holds `fill`, changes nothing.
pub open spec fn flood_filled(p: Pixels, sx: int, sy: int, fill: Color) -> Pixels {
    if !in_bounds(p, sx, sy) || p[sy][sx] == fill {
        p
    } else {
        painted(p, region(p, sx, sy), Symmetry::spec_none(), fill)
    }
}

/// A pixel is joined to itself.
pub proof fn connected_to_itself(p: Pixels, c: Color, q: (int, int))
    requires
        colored(p, q, c),
    ensures
        connected(p, c, q, q),
{
    let path = seq![q];
    assert(is_path(p, c, path));
    assert(path[0] == q && path.last() == q);
}

/// A walk can be extended by an adjacent pixel of the same color.
pub proof fn connected_one_further(p: Pixels, c: Color, a: (int, int), b: (int, int), n: (int, int))
    requires
        connected(p, c, a, b),
        adjacent(b, n),
        colored(p, n, c),
    ensures
        connected(p, c, a, n),
{
    let path = choose|path: Seq<(int, int)>| #[trigger]
        is_path(p, c, path) && path[0] == a && path.last() == b;
    let longer = path.push(n);
    assert forall|i: int| 0 <= i < longer.len() implies colored(p, #[trigger] longer[i], c) by {
        if i < path.len() {
            assert(longer[i] == path[i]);
        }
    }
    assert forall|i: int| 0 <= i < longer.len() - 1 implies adjacent(
        #[trigger] longer[i],
        longer[i + 1],
    ) by {
        if i < path.len() - 1 {
            assert(longer[i] == path[i]);
            assert(longer[i + 1] == path[i + 1]);
        }
    }
    assert(is_path(p, c, longer));
    assert(longer[0] == a && longer.last() == n);
}

/// A walk that starts inside a set which no step over color `c` leaves
/// stays inside it.
proof fn walk_stays_inside(p: Pixels, c: Color, path: Seq<(int, int)>, s: Set<(int, int)>, i: int)
    requires
        is_path(p, c, path),
        s.contains(path[0]),
        forall|a: (int, int), n: (int, int)|
            s.contains(a) && #[trigger] adjacent(a, n) && colored(p, n, c) ==> #[trigger] s.contains(
                n,
            ),
        0 <= i < path.len(),
    ensures
        s.contains(path[i]),
    decreases i,
{
    if i > 0 {
        walk_stays_inside(p, c, path, s, i - 1);
        assert(adjacent(path[i - 1], path[i]));
        assert(colored(p, path[i], c));
    }
}

/// A set that holds the seed and that no step over the seed's color leaves
/// holds the seed's whole region.
pub proof fn region_within_closed_set(p: Pixels, sx: int, sy: int, s: Set<(int, int)>)
    requires
        in_bounds(p, sx, sy),
        s.contains((sx, sy)),
        forall|a: (int, int), n: (int, int)|
            s.contains(a) && #[trigger] adjacent(a, n) && colored(p, n, p[sy][sx])
                ==> #[trigger] s.contains(n),
    ensures
        region(p, sx, sy).subset_of(s),
{
    let c = p[sy][sx];
    assert forall|q: (int, int)| region(p, sx, sy).contains(q) implies s.contains(q) by {
        let path = choose|path: Seq<(int, int)>| #[trigger]
            is_path(p, c, path) && path[0] == (sx, sy) && path.last() == q;
        walk_stays_inside(p, c, path, s, path.len() - 1);
    }
}

/// A flood fill changes no pixel outside a set that holds the seed and is
/// bounded on all sides by other colors than the seed's.
pub proof fn flood_fill_stays_inside(
    p: Pixels,
    sx: int,
    sy: int,
    fill: Color,
    s: Set<(int, int)>,
    x: int,
    y: int,
)
    requires
        rectangular(p),
        in_bounds(p, sx, sy),
        s.contains((sx, sy)),
        forall|a: (int, int), n: (int, int)|
            s.contains(a) && #[trigger] adjacent(a, n) && colored(p, n, p[sy][sx])
                ==> #[trigger] s.contains(n),
        in_bounds(p, x, y),
        !s.contains((x, y)),
    ensures
        flood_filled(p, sx, sy, fill)[y][x] == p[y][x],
{
    region_within_closed_set(p, sx, sy, s);
    assert(!region(p, sx, sy).contains((x, y)));
}

/// In a grid of one color every pixel is joined to every other.
proof fn solid_grid_is_connected(p: Pixels, c: Color, a: (int, int), b: (int, int))
    requires
        rectangular(p),
        forall|x: int, y: int| in_bounds(p, x, y) ==> p[y][x] == c,
        in_bounds(p, a.0, a.1),
        in_bounds(p, b.0, b.1),
    ensures
        connected(p, c, a, b),
    decreases (if b.0 >= a.0 { b.0 - a.0 } else { a.0 - b.0 }) + (if b.1 >= a.1 { b.1 - a.1 } else { a.1 - b.1 }),
{
    assert(p[a.1].len() == width_of(p));
    assert(p[b.1].len() == width_of(p));
    if a == b {
        connected_to_itself(p, c, a);
    } else {
        let nearer: (int, int) = if b.0 > a.0 {
            (b.0 - 1, b.1)
        } else if b.0 < a.0 {
            (b.0 + 1, b.1)
        } else if b.1 > a.1 {
            (b.0, b.1 - 1)
        } else {
            (b.0, b.1 + 1)
        };
        assert(p[nearer.1].len() == width_of(p));
        solid_grid_is_connected(p, c, a, nearer);
        connected_one_further(p, c, a, nearer, b);
    }
}

/// Filling a grid of one color from any of its pixels with another color
/// recolors every pixel.
pub proof fn flood_fill_of_solid_grid(p: Pixels, c: Color, sx: int, sy: int, fill: Color)
    requires
        rectangular(p),
        forall|x: int, y: int| in_bounds(p, x, y) ==> p[y][x] == c,
        in_bounds(p, sx, sy),
        fill != c,
    ensures
        flood_filled(p, sx, sy, fill) == filled(width_of(p), p.len(), fill),
{
    let out = flood_filled(p, sx, sy, fill);
    let want = filled(width_of(p), p.len(), fill);
    assert forall|y: int| 0 <= y < out.len() implies #[trigger] out[y] =~= want[y] by {
        assert(p[y].len() == width_of(p));
        assert forall|x: int| 0 <= x < out[y].len() implies out[y][x] == want[y][x] by {
            solid_grid_is_connected(p, c, (sx, sy), (x, y));
            assert(region(p, sx, sy).contains((x, y)));
        }
    }
    assert(out =~= want);
}

/// The lattice points of a `w` by `h` grid.
pub open spec fn lattice(w: int, h: int) -> Set<(int, int)> {
    Set::new(|q: (int, int)| 0 <= q.0 < w && 0 <= q.1 < h)
}

/// The first `w` lattice points of row `y`.
spec fn lattice_row(w: int, y: int) -> Set<(int, int)> {
    Set::new(|q: (int, int)| 0 <= q.0 < w && q.1 == y)
}

proof fn lattice_row_is_finite(w: int, y: int)
    requires
        w >= 0,
    ensures
        lattice_row(w, y).finite(),
    decreases w,
{
    if w == 0 {
        assert(lattice_row(w, y) =~= Set::empty());
    } else {
        lattice_row_is_finite(w - 1, y);
        assert(lattice_row(w, y) =~= lattice_row(w - 1, y).insert((w - 1, y)));
    }
}

/// A grid has finitely many pixels.
pub proof fn lattice_is_finite(w: int, h: int)
    requires
        w >= 0,
        h >= 0,
    ensures
        lattice(w, h).finite(),
    decreases h,
{
    if h == 0 {
        assert(lattice(w, h) =~= Set::empty());
    } else {
        lattice_is_finite(w, h - 1);
        lattice_row_is_finite(w, h - 1);
        assert(lattice(w, h) =~= lattice(w, h - 1).union(lattice_row(w, h - 1)));
    }
}

/// `n` waits on the stack.
pub open spec fn pending(stack: Seq<(usize, usize)>, n: (int, int)) -> bool {
    exists|i: int| 0 <= i < stack.len() && (#[trigger] stack[i]).0 == n.0 && stack[i].1 == n.1
}

/// Recolors the region of the pixel `(start_x, start_y)` with `new_color`.
pub fn flood_fill(grid: &mut Vec<Vec<Color>>, start_x: usize, start_y: usize, new_color: Color)
    requires
        rectangular(pixels(*old(grid))),
    ensures
        pixels(*final(grid)) == flood_filled(
            pixels(*old(grid)),
            start_x as int,
            start_y as int,
            new_color,
        ),
        rectangular(pixels(*final(grid))),
{
    let ghost before = pixels(*old(grid));
    let height = grid.len();
    let width = crate::grid::grid_width(grid);
    if start_x >= width || start_y >= height {
        proof {
            if start_y < height {
                assert(before[start_y as int].len() == width_of(before));
            }
        }
        return;
    }
    assert(before[start_y as int].len() == width_of(before));
    let target = grid[start_y][start_x];
    if target == new_color {
        return;
    }
    let ghost seed: (int, int) = (start_x as int, start_y as int);
    let ghost none = Symmetry::spec_none();
    let mut stack: Vec<(usize, usize)> = Vec::new();
    stack.push((start_x, start_y));
    let ghost mut done: Set<(int, int)> = Set::empty();
    let ghost mut waiting: Set<(int, int)> = Set::new(|q: (int, int)| colored(before, q, target));
    proof {
        lattice_is_finite(width as int, height as int);
        assert(waiting.subset_of(lattice(width as int, height as int))) by {
            assert forall|q: (int, int)| waiting.contains(q) implies lattice(
                width as int,
                height as int,
            ).contains(q) by {
                assert(before[q.1].len() == width_of(before));
            }
        }
        lemma_set_subset_finite(lattice(width as int, height as int), waiting);
        painted_nothing(before, none, new_color);
        connected_to_itself(before, target, seed);
        assert(stack@[0] == (start_x, start_y));
        assert(pending(stack@, seed));
    }
    while stack.len() > 0
        invariant
            rectangular(before),
            rectangular(pixels(*grid)),
            before.len() == height,
            width_of(before) == width,
            grid.len() == height,
            seed == (start_x as int, start_y as int),
            none == Symmetry::spec_none(),
            target == before[seed.1][seed.0],
            target != new_color,
            colored(before, seed, target),
            pixels(*grid) == painted(before, done, none, new_color),
            waiting.finite(),
            forall|q: (int, int)|
                waiting.contains(q) <==> colored(before, q, target) && !done.contains(q),
            forall|q: (int, int)|
                done.contains(q) ==> colored(before, q, target) && connected(
                    before,
                    target,
                    seed,
                    q,
                ),
            forall|i: int|
                0 <= i < stack.len() ==> (#[trigger] stack[i]).0 < width && stack[i].1 < height,
            forall|i: int|
                0 <= i < stack.len() && colored(
                    before,
                    ((#[trigger] stack[i]).0 as int, stack[i].1 as int),
                    target,
                ) ==> connected(before, target, seed, (stack[i].0 as int, stack[i].1 as int)),
            forall|a: (int, int), n: (int, int)|
                done.contains(a) && #[trigger] adjacent(a, n) && colored(before, n, target)
                    ==> #[trigger] done.contains(n) || pending(stack@, n),
            done.contains(seed) || pending(stack@, seed),
        decreases waiting.len(), stack.len(),
    {
        let ghost old_stack = stack@;
        let ghost old_done = done;
        let (x, y) = stack.pop().unwrap();
        let ghost q: (int, int) = (x as int, y as int);
        proof {
            assert(old_stack[old_stack.len() - 1] == (x, y));
            assert(before[y as int].len() == width_of(before));
            painted_keeps_shape(before, done, none, new_color);
            assert(pixels(*grid)[y as int].len() == before[y as int].len());
            // Whatever waited on the old stack still waits, or is the
            // pixel just taken.
            assert forall|n: (int, int)| pending(old_stack, n) implies pending(stack@, n) || n
                == q by {
                let i = choose|i: int|
                    0 <= i < old_stack.len() && (#[trigger] old_stack[i]).0 == n.0
                        && old_stack[i].1 == n.1;
                if i < stack@.len() {
                    assert(stack@[i] == old_stack[i]);
                }
            }
        }
        let current = grid[y][x];
        assert(current == pixels(*grid)[y as int][x as int]);
        if current == target {
            assert(!done.contains(q));
            assert(colored(before, q, target));
            assert(waiting.contains(q));
            let ghost prev = pixels(*grid);
            grid[y][x] = new_color;
            proof {
                done = old_done.insert(q);
                waiting = waiting.remove(q);
                let now = pixels(*grid);
                let want = painted(before, done, none, new_color);
                assert(now.len() == prev.len());
                assert forall|j: int| 0 <= j < now.len() implies #[trigger] now[j] =~= want[j] by {
                    assert(before[j].len() == width_of(before));
                    if j == y {
                        assert(now[j] == prev[j].update(x as int, new_color));
                    } else {
                        assert(now[j] == prev[j]);
                    }
                    assert forall|i: int| 0 <= i < now[j].len() implies now[j][i] == want[j][i] by {
                        if i == x && j == y {
                            assert(done.contains((i, j)));
                        } else {
                            assert(done.contains((i, j)) == old_done.contains((i, j)));
                        }
                    }
                }
                assert(now =~= want);
                painted_keeps_shape(before, done, none, new_color);
            }
            let ghost s0 = stack@;
            if x > 0 {
                stack.push((x - 1, y));
            }
            let ghost s1 = stack@;
            if x + 1 < width {
                stack.push((x + 1, y));
            }
            let ghost s2 = stack@;
            if y > 0 {
                stack.push((x, y - 1));
            }
            let ghost s3 = stack@;
            if y + 1 < height {
                stack.push((x, y + 1));
            }
            proof {
                let s4 = stack@;
                assert forall|i: int| 0 <= i < s0.len() implies s4[i] == s0[i] by {}
                assert forall|n: (int, int)| pending(s0, n) implies pending(s4, n) by {
                    let i = choose|i: int|
                        0 <= i < s0.len() && (#[trigger] s0[i]).0 == n.0 && s0[i].1 == n.1;
                    assert(s4[i] == s0[i]);
                }
                assert forall|n: (int, int)| #[trigger]
                    adjacent(q, n) && colored(before, n, target) implies pending(s4, n) by {
                    assert(before[n.1].len() == width_of(before));
                    if n.0 == q.0 - 1 {
                        assert(s1[s0.len() as int] == (((x - 1) as usize), y));
                        assert(s4[s0.len() as int] == s1[s0.len() as int]);
                    } else if n.0 == q.0 + 1 {
                        assert(s2[s1.len() as int] == (((x + 1) as usize), y));
                        assert(s4[s1.len() as int] == s2[s1.len() as int]);
                    } else if n.1 == q.1 - 1 {
                        assert(s3[s2.len() as int] == (x, ((y - 1) as usize)));
                        assert(s4[s2.len() as int] == s3[s2.len() as int]);
                    } else {
                        assert(s4[s3.len() as int] == (x, ((y + 1) as usize)));
                    }
                }
                assert forall|i: int|
                    0 <= i < s4.len() && colored(
                        before,
                        ((#[trigger] s4[i]).0 as int, s4[i].1 as int),
                        target,
                    ) implies connected(before, target, seed, (s4[i].0 as int, s4[i].1 as int)) by {
                    if i >= s0.len() {
                        let n = (s4[i].0 as int, s4[i].1 as int);
                        assert(adjacent(q, n));
                        connected_one_further(before, target, seed, q, n);
                    }
                }
            }
        }
    }
    proof {
        assert(!pending(stack@, seed));
        assert forall|a: (int, int), n: (int, int)|
            done.contains(a) && #[trigger] adjacent(a, n) && colored(before, n, target)
                implies #[trigger] done.contains(n) by {
            assert(!pending(stack@, n));
        }
        region_within_closed_set(before, seed.0, seed.1, done);
        assert(done =~= region(before, seed.0, seed.1));
    }
}

} // verus!
