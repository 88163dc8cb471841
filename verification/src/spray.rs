//! The spray can: random dots around a center.
//!
//! A spray takes `radius * 8 * intensity / 255` dots. Each dot is aimed at a
//! random offset of at most `radius` along each axis, lands only within
//! `radius` of the center, and then only with the probability that the
//! intensity gives. What a spray paints therefore differs from call to
//! call; it is always part of the disc around the center.

use vstd::prelude::*;
use crate::color::Color;
use crate::grid::{pixels, rectangular};
use crate::paint::{Symmetry, painted, painted_twice, painted_nothing, painted_agree, disc, in_disc,
    disc_contains, paint_point};
use crate::random::random_between;

verus! {

/// Whether a dot aimed at `(x, y)` lands: it lies within `radius` of the
/// center, and the roll, a number from 0 to 254, is below the intensity.
pub open spec fn dot_lands(
    cx: int,
    cy: int,
    radius: int,
    x: int,
    y: int,
    roll: int,
    intensity: u8,
) -> bool {
    in_disc(cx, cy, radius, x, y) && roll < intensity
}

/// What one dot paints.
pub open spec fn dot(
    cx: int,
    cy: int,
    radius: int,
    dx: int,
    dy: int,
    roll: int,
    intensity: u8,
) -> Set<(int, int)> {
    if dot_lands(cx, cy, radius, cx + dx, cy + dy, roll, intensity) {
        set![(cx + dx, cy + dy)]
    } else {
        Set::empty()
    }
}

/// Paints one dot of a spray around `(cx, cy)`, aimed at the offset
/// `(dx, dy)`, where it lands.
pub fn spray_dot(
    grid: &mut Vec<Vec<Color>>,
    cx: usize,
    cy: usize,
    radius: usize,
    dx: i64,
    dy: i64,
    roll: i64,
    intensity: u8,
    color: Color,
    sym: Symmetry,
)
    requires
        rectangular(pixels(*old(grid))),
    ensures
        pixels(*final(grid)) == painted(
            pixels(*old(grid)),
            dot(cx as int, cy as int, radius as int, dx as int, dy as int, roll as int, intensity),
            sym,
            color,
        ),
        rectangular(pixels(*final(grid))),
{
    let ghost before = pixels(*grid);
    let ghost aim = dot(
        cx as int,
        cy as int,
        radius as int,
        dx as int,
        dy as int,
        roll as int,
        intensity,
    );
    let x: i128 = cx as i128 + dx as i128;
    let y: i128 = cy as i128 + dy as i128;
    if 0 <= x && x <= usize::MAX as i128 && 0 <= y && y <= usize::MAX as i128 {
        if roll < intensity as i64 && disc_contains(cx, cy, radius, x as usize, y as usize) {
            paint_point(grid, x as usize, y as usize, color, sym);
        } else {
            proof {
                painted_nothing(before, sym, color);
            }
        }
    } else {
        proof {
            assert(before.len() <= usize::MAX);
            if before.len() > 0 {
                assert(before[0].len() == grid[0].len());
            }
            painted_agree(before, aim, Set::empty(), sym, color);
            painted_nothing(before, sym, color);
        }
    }
}

/// Sprays around `(cx, cy)`: paints random points within `radius` of it,
/// mirrored as `sym` asks.
pub fn spray_grid(
    grid: &mut Vec<Vec<Color>>,
    cx: usize,
    cy: usize,
    radius: usize,
    intensity: u8,
    color: Color,
    sym: Symmetry,
)
    requires
        rectangular(pixels(*old(grid))),
    ensures
        exists|shape: Set<(int, int)>|
            shape.subset_of(disc(cx as int, cy as int, radius as int)) && pixels(*final(grid))
                == #[trigger] painted(pixels(*old(grid)), shape, sym, color),
        rectangular(pixels(*final(grid))),
{
    let ghost before = pixels(*grid);
    let ghost mut done: Set<(int, int)> = Set::empty();
    proof {
        crate::color::product_bound(
            radius as int * 8,
            intensity as int,
            147573952589676412920int,
            255,
        );
    }
    let dots: u128 = (radius as u128 * 8 * intensity as u128) / 255;
    let reach: i64 = if radius as u128 > i64::MAX as u128 {
        i64::MAX
    } else {
        radius as i64
    };
    proof {
        painted_nothing(before, sym, color);
    }
    let mut n: u128 = 0;
    while n < dots
        invariant
            n <= dots,
            0 <= reach,
            rectangular(before),
            rectangular(pixels(*grid)),
            done.subset_of(disc(cx as int, cy as int, radius as int)),
            pixels(*grid) == painted(before, done, sym, color),
        decreases dots - n,
    {
        let dx = random_between(-reach, reach);
        let dy = random_between(-reach, reach);
        let roll = random_between(0, 254);
        let ghost aim = dot(
            cx as int,
            cy as int,
            radius as int,
            dx as int,
            dy as int,
            roll as int,
            intensity,
        );
        spray_dot(grid, cx, cy, radius, dx, dy, roll, intensity, color, sym);
        proof {
            painted_twice(before, done, aim, sym, color);
            done = done.union(aim);
        }
        n += 1;
    }
}

} // verus!
