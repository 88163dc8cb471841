//! Moving a layer's pixels and resizing the canvas.

use vstd::prelude::*;
use crate::color::Color;
use crate::grid::{Pixels, pixels, width_of, rectangular, has_size};
use crate::layer::{Frame, FrameView, LayerView, frames_view};

verus! {

/// The grid moved by `(dx, dy)`: the pixel at `(x, y)` comes from
/// `(x - dx, y - dy)`, and is transparent where that lies outside the grid.
pub open spec fn moved(p: Pixels, dx: int, dy: int) -> Pixels {
    Seq::new(
        p.len(),
        |y: int|
            Seq::new(
                width_of(p),
                |x: int| if 0 <= x - dx < width_of(p) && 0 <= y - dy < p.len() {
                    p[y - dy][x - dx]
                } else {
                    Color::spec_transparent()
                },
            ),
    )
}

/// A copy of the grid moved by `(dx, dy)`; what moves in from outside is
/// transparent, what moves out is lost.
pub fn shift_grid(grid: &Vec<Vec<Color>>, dx: i128, dy: i128) -> (out: Vec<Vec<Color>>)
    requires
        rectangular(pixels(*grid)),
    ensures
        pixels(out) == moved(pixels(*grid), dx as int, dy as int),
        has_size(pixels(out), width_of(pixels(*grid)), pixels(*grid).len()),
{
    let ghost p = pixels(*grid);
    let height = grid.len();
    let width = crate::grid::grid_width(grid);
    let mut out: Vec<Vec<Color>> = Vec::new();
    let mut y: usize = 0;
    while y < height
        invariant
            y <= height,
            height == grid.len(),
            p == pixels(*grid),
            rectangular(p),
            width == width_of(p),
            out.len() == y,
            forall|j: int| 0 <= j < y ==> (#[trigger] out[j])@ == moved(p, dx as int, dy as int)[j],
        decreases height - y,
    {
        let ny: i128 = if dy >= 0 && dy > height as i128 || dy < 0 && -(dy + 1) >= height as i128 {
            -1
        } else {
            y as i128 - dy
        };
        let mut row: Vec<Color> = Vec::new();
        let mut x: usize = 0;
        while x < width
            invariant
                x <= width,
                y < height,
                height == grid.len(),
                p == pixels(*grid),
                rectangular(p),
                width == width_of(p),
                ny == y - dy || (ny == -1 && !(0 <= y - dy < height)),
                row.len() == x,
                forall|i: int|
                    0 <= i < x ==> (#[trigger] row[i]) == moved(p, dx as int, dy as int)[y as int][i],
            decreases width - x,
        {
            let nx: i128 = if dx >= 0 && dx > width as i128 || dx < 0 && -(dx + 1) >= width as i128 {
                -1
            } else {
                x as i128 - dx
            };
            if nx >= 0 && nx < width as i128 && ny >= 0 && ny < height as i128 {
                assert(p[ny as int].len() == width);
                row.push(grid[ny as usize][nx as usize]);
            } else {
                row.push(Color::transparent());
            }
            x += 1;
        }
        assert(row@ =~= moved(p, dx as int, dy as int)[y as int]);
        out.push(row);
        y += 1;
    }
    assert(pixels(out) =~= moved(p, dx as int, dy as int));
    out
}

/// A copy of the grid moved by `(dx, dy)`; what moves in from outside is
/// transparent, what moves out is lost.
pub fn shift_layer_grid(grid: &Vec<Vec<Color>>, dx: isize, dy: isize) -> (out: Vec<Vec<Color>>)
    requires
        rectangular(pixels(*grid)),
    ensures
        pixels(out) == moved(pixels(*grid), dx as int, dy as int),
        has_size(pixels(out), width_of(pixels(*grid)), pixels(*grid).len()),
{
    shift_grid(grid, dx as i128, dy as i128)
}

/// How far the old pixels move along one axis when the canvas is resized:
/// not at all where it shrinks or is anchored at the top left (anchor 0, or
/// any unknown anchor), half the growth for the center (anchor 1), all of
/// it for the bottom right (anchor 2).
pub open spec fn anchor_offset(anchor: usize, old_size: int, new_size: int) -> int {
    if new_size <= old_size {
        0
    } else if anchor == 1 {
        (new_size - old_size) / 2
    } else if anchor == 2 {
        new_size - old_size
    } else {
        0
    }
}

/// The smaller of two sizes.
pub open spec fn overlap(old_size: int, new_size: int) -> int {
    if old_size <= new_size {
        old_size
    } else {
        new_size
    }
}

/// The grid on a canvas of another size: the old pixels that overlap the
/// new canvas, moved as the anchor says, on a transparent ground.
pub open spec fn resized(p: Pixels, new_width: nat, new_height: nat, anchor: usize) -> Pixels {
    let ox = anchor_offset(anchor, width_of(p) as int, new_width as int);
    let oy = anchor_offset(anchor, p.len() as int, new_height as int);
    Seq::new(
        new_height,
        |y: int|
            Seq::new(
                new_width,
                |x: int| if 0 <= x - ox < overlap(width_of(p) as int, new_width as int) && 0 <= y
                    - oy < overlap(p.len() as int, new_height as int) {
                    p[y - oy][x - ox]
                } else {
                    Color::spec_transparent()
                },
            ),
    )
}

/// How far the old pixels move along one axis.
fn offset_for(anchor: usize, old_size: usize, new_size: usize) -> (off: usize)
    ensures
        off == anchor_offset(anchor, old_size as int, new_size as int),
        off + if old_size <= new_size { old_size } else { new_size } <= new_size,
{
    if new_size <= old_size {
        0
    } else if anchor == 1 {
        (new_size - old_size) / 2
    } else if anchor == 2 {
        new_size - old_size
    } else {
        0
    }
}

/// A copy of the grid on a canvas of `new_width` by `new_height` pixels.
pub fn resize_grid(grid: &Vec<Vec<Color>>, new_width: usize, new_height: usize, anchor: usize) -> (out:
    Vec<Vec<Color>>)
    requires
        rectangular(pixels(*grid)),
    ensures
        pixels(out) == resized(pixels(*grid), new_width as nat, new_height as nat, anchor),
        has_size(pixels(out), new_width as nat, new_height as nat),
{
    let ghost p = pixels(*grid);
    let ghost want = resized(p, new_width as nat, new_height as nat, anchor);
    let old_height = grid.len();
    let old_width = crate::grid::grid_width(grid);
    let ox = offset_for(anchor, old_width, new_width);
    let oy = offset_for(anchor, old_height, new_height);
    let keep_w = if old_width <= new_width {
        old_width
    } else {
        new_width
    };
    let keep_h = if old_height <= new_height {
        old_height
    } else {
        new_height
    };
    let mut out: Vec<Vec<Color>> = Vec::new();
    let mut y: usize = 0;
    while y < new_height
        invariant
            y <= new_height,
            old_height == grid.len(),
            p == pixels(*grid),
            rectangular(p),
            old_width == width_of(p),
            want == resized(p, new_width as nat, new_height as nat, anchor),
            ox == anchor_offset(anchor, old_width as int, new_width as int),
            oy == anchor_offset(anchor, old_height as int, new_height as int),
            keep_w == overlap(old_width as int, new_width as int),
            keep_h == overlap(old_height as int, new_height as int),
            out.len() == y,
            forall|j: int| 0 <= j < y ==> (#[trigger] out[j])@ == want[j],
        decreases new_height - y,
    {
        let mut row: Vec<Color> = Vec::new();
        let mut x: usize = 0;
        while x < new_width
            invariant
                x <= new_width,
                y < new_height,
                old_height == grid.len(),
                p == pixels(*grid),
                rectangular(p),
                old_width == width_of(p),
                want == resized(p, new_width as nat, new_height as nat, anchor),
                ox == anchor_offset(anchor, old_width as int, new_width as int),
                oy == anchor_offset(anchor, old_height as int, new_height as int),
                keep_w == overlap(old_width as int, new_width as int),
                keep_h == overlap(old_height as int, new_height as int),
                row.len() == x,
                forall|i: int| 0 <= i < x ==> (#[trigger] row[i]) == want[y as int][i],
            decreases new_width - x,
        {
            if x >= ox && x - ox < keep_w && y >= oy && y - oy < keep_h {
                assert(p[y - oy].len() == old_width);
                row.push(grid[y - oy][x - ox]);
            } else {
                row.push(Color::transparent());
            }
            x += 1;
        }
        assert(row@ =~= want[y as int]);
        out.push(row);
        y += 1;
    }
    assert(pixels(out) =~= want);
    out
}

/// A layer on a canvas of another size.
pub open spec fn resized_layer(l: LayerView, w: nat, h: nat, anchor: usize) -> LayerView {
    l.with_pixels(resized(l.pixels, w, h, anchor))
}

/// A frame on a canvas of another size.
pub open spec fn resized_frame(f: FrameView, w: nat, h: nat, anchor: usize) -> FrameView {
    Seq::new(f.len(), |j: int| resized_layer(f[j], w, h, anchor))
}

/// A list of frames on a canvas of another size.
pub open spec fn resized_frames(frames: Seq<FrameView>, w: nat, h: nat, anchor: usize) -> Seq<
    FrameView,
> {
    Seq::new(frames.len(), |i: int| resized_frame(frames[i], w, h, anchor))
}

/// Every layer of every frame is rectangular.
pub open spec fn all_rectangular(frames: Seq<FrameView>) -> bool {
    forall|i: int, j: int|
        0 <= i < frames.len() && 0 <= j < frames[i].len() ==> rectangular(
            (#[trigger] frames[i][j]).pixels,
        )
}

/// Puts every layer of a frame on a canvas of another size.
pub fn resize_frame(frame: &mut Frame, new_width: usize, new_height: usize, anchor: usize)
    requires
        forall|j: int| 0 <= j < old(frame)@.len() ==> rectangular((#[trigger] old(frame)@[j]).pixels),
    ensures
        final(frame)@ == resized_frame(old(frame)@, new_width as nat, new_height as nat, anchor),
{
    let ghost before = frame@;
    let ghost want = resized_frame(before, new_width as nat, new_height as nat, anchor);
    let n = frame.layers.len();
    let mut j: usize = 0;
    while j < n
        invariant
            j <= n,
            n == frame.layers.len(),
            before.len() == n,
            want == resized_frame(before, new_width as nat, new_height as nat, anchor),
            forall|k: int| 0 <= k < before.len() ==> rectangular((#[trigger] before[k]).pixels),
            forall|k: int| 0 <= k < j ==> (#[trigger] frame.layers[k])@ == want[k],
            forall|k: int| j <= k < n ==> (#[trigger] frame.layers[k])@ == before[k],
        decreases n - j,
    {
        assert(frame.layers[j as int]@ == before[j as int]);
        assert(rectangular(before[j as int].pixels));
        let grid = resize_grid(&frame.layers[j].grid, new_width, new_height, anchor);
        frame.layers[j].grid = grid;
        j += 1;
    }
    assert(frame@ =~= want);
}

/// Puts every layer of every frame on a canvas of another size.
pub fn resize_frames(frames: &mut Vec<Frame>, new_width: usize, new_height: usize, anchor: usize)
    requires
        all_rectangular(frames_view(*old(frames))),
    ensures
        frames_view(*final(frames)) == resized_frames(
            frames_view(*old(frames)),
            new_width as nat,
            new_height as nat,
            anchor,
        ),
{
    let ghost before = frames_view(*old(frames));
    let ghost want = resized_frames(before, new_width as nat, new_height as nat, anchor);
    let n = frames.len();
    let mut i: usize = 0;
    while i < n
        invariant
            i <= n,
            n == frames.len(),
            before.len() == n,
            want == resized_frames(before, new_width as nat, new_height as nat, anchor),
            all_rectangular(before),
            forall|k: int| 0 <= k < i ==> (#[trigger] frames[k])@ == want[k],
            forall|k: int| i <= k < n ==> (#[trigger] frames[k])@ == before[k],
        decreases n - i,
    {
        proof {
            let f = before[i as int];
            assert(frames[i as int]@ == f);
            assert forall|j: int| 0 <= j < f.len() implies rectangular((#[trigger] f[j]).pixels) by {
                assert(rectangular(before[i as int][j].pixels));
            }
        }
        resize_frame(&mut frames[i], new_width, new_height, anchor);
        i += 1;
    }
    assert(frames_view(*frames) =~= want);
}

} // verus!
