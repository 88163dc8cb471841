//! Flattening layers, and neighbouring frames, into one grid.
//!
//! Compositing starts from a transparent grid and lays each visible layer
//! over it in paint order, pixel by pixel, with the "over" operator. With
//! onion skinning the neighbouring frames come first, tinted and faded: the
//! preceding ones nearest first, then the following ones, and the frame
//! itself on top.

use vstd::prelude::*;
use crate::color::{Color, blend, blend_colors};
use crate::grid::{Pixels, pixels, has_size, filled, new_grid};
use crate::layer::{Layer, LayerView, Frame, FrameView, frame_wf, frame_has_size, frames_view};

verus! {

/// How neighbouring frames are shown beneath the current one.
#[derive(Clone, Copy, Debug, PartialEq, Eq, Structural)]
pub struct OnionSkin {
    /// Whether neighbouring frames are shown at all.
    pub enabled: bool,
    /// How many preceding frames are shown, tinted blue.
    pub prev_frames: usize,
    /// How many following frames are shown, tinted red.
    pub next_frames: usize,
    /// The opacity of the nearest neighbour, in units of 1/255; each further
    /// step takes a fifth of it away.
    pub opacity: u8,
}

/// The tint of preceding frames.
pub open spec fn past_tint() -> Color {
    Color { r: 0, g: 0, b: 255, a: 255 }
}

/// The tint of following frames.
pub open spec fn future_tint() -> Color {
    Color { r: 255, g: 0, b: 0, a: 255 }
}

/// One pixel of a layer over an accumulated color. An invisible layer
/// contributes nothing.
pub open spec fn layer_over(acc: Color, l: LayerView, x: int, y: int) -> Color {
    if l.visible {
        blend(acc, l.pixels[y][x].spec_faded(l.opacity))
    } else {
        acc
    }
}

/// A layer over an accumulated grid.
pub open spec fn layered(acc: Pixels, l: LayerView) -> Pixels {
    Seq::new(acc.len(), |y: int| Seq::new(acc[y].len(), |x: int| layer_over(acc[y][x], l, x, y)))
}

/// The first `n` layers of a frame over `base`, bottom first.
pub open spec fn flatten(f: FrameView, n: nat, base: Pixels) -> Pixels
    decreases n,
{
    if n == 0 {
        base
    } else {
        layered(flatten(f, (n - 1) as nat, base), f[n - 1])
    }
}

/// One pixel of a neighbouring frame's layer over an accumulated color:
/// tinted, and faded by the distance in frames.
pub open spec fn ghost_over(
    acc: Color,
    l: LayerView,
    tint: Color,
    base: u8,
    step: nat,
    x: int,
    y: int,
) -> Color {
    if l.visible {
        blend(acc, l.pixels[y][x].spec_ghosted(tint, base, step))
    } else {
        acc
    }
}

/// A neighbouring frame's layer over an accumulated grid.
pub open spec fn ghost_layered(acc: Pixels, l: LayerView, tint: Color, base: u8, step: nat) -> Pixels {
    Seq::new(
        acc.len(),
        |y: int| Seq::new(acc[y].len(), |x: int| ghost_over(acc[y][x], l, tint, base, step, x, y)),
    )
}

/// The first `n` layers of a neighbouring frame over `acc`.
pub open spec fn ghost_flatten(
    f: FrameView,
    n: nat,
    acc: Pixels,
    tint: Color,
    base: u8,
    step: nat,
) -> Pixels
    decreases n,
{
    if n == 0 {
        acc
    } else {
        ghost_layered(ghost_flatten(f, (n - 1) as nat, acc, tint, base, step), f[n - 1], tint, base, step)
    }
}

/// The `k` frames before `idx` over `acc`, the nearest first.
pub open spec fn past_frames(frames: Seq<FrameView>, idx: int, k: nat, acc: Pixels, base: u8) -> Pixels
    decreases k,
{
    if k == 0 {
        acc
    } else {
        let f = frames[idx - k];
        ghost_flatten(f, f.len(), past_frames(frames, idx, (k - 1) as nat, acc, base), past_tint(), base, k)
    }
}

/// The `k` frames after `idx` over `acc`, the nearest first.
pub open spec fn future_frames(frames: Seq<FrameView>, idx: int, k: nat, acc: Pixels, base: u8) -> Pixels
    decreases k,
{
    if k == 0 {
        acc
    } else {
        let f = frames[idx + k];
        ghost_flatten(
            f,
            f.len(),
            future_frames(frames, idx, (k - 1) as nat, acc, base),
            future_tint(),
            base,
            k,
        )
    }
}

/// How many preceding frames are shown: as many as asked for and there are.
pub open spec fn shown_before(idx: int, onion: OnionSkin) -> nat {
    if !onion.enabled {
        0
    } else if onion.prev_frames <= idx {
        onion.prev_frames as nat
    } else {
        idx as nat
    }
}

/// How many following frames are shown: as many as asked for and there are.
pub open spec fn shown_after(len: int, idx: int, onion: OnionSkin) -> nat {
    if !onion.enabled {
        0
    } else if onion.next_frames <= len - 1 - idx {
        onion.next_frames as nat
    } else {
        (len - 1 - idx) as nat
    }
}

/// One frame flattened onto a transparent grid of its own size.
pub open spec fn composed_frame(f: FrameView) -> Pixels {
    flatten(f, f.len(), filled(f[0].width(), f[0].height(), Color::spec_transparent()))
}

/// The displayable grid of frame `idx`: onion skins first, where enabled,
/// then the frame's own layers.
pub open spec fn composite(frames: Seq<FrameView>, idx: int, onion: OnionSkin) -> Pixels {
    let f = frames[idx];
    let blank = filled(f[0].width(), f[0].height(), Color::spec_transparent());
    let before = past_frames(frames, idx, shown_before(idx, onion), blank, onion.opacity);
    let around = future_frames(
        frames,
        idx,
        shown_after(frames.len() as int, idx, onion),
        before,
        onion.opacity,
    );
    flatten(f, f.len(), around)
}

/// Without onion skinning the composite is the flattened frame.
pub proof fn composite_without_onion(frames: Seq<FrameView>, idx: int, onion: OnionSkin)
    requires
        !onion.enabled,
    ensures
        composite(frames, idx, onion) == composed_frame(frames[idx]),
{
}

/// Flattening keeps the size of the grid it starts from.
pub proof fn flatten_has_size(f: FrameView, n: nat, base: Pixels, w: nat, h: nat)
    requires
        has_size(base, w, h),
    ensures
        has_size(flatten(f, n, base), w, h),
    decreases n,
{
    if n > 0 {
        flatten_has_size(f, (n - 1) as nat, base, w, h);
    }
}

/// Flattening a neighbouring frame keeps the size of the grid it starts from.
pub proof fn ghost_flatten_has_size(
    f: FrameView,
    n: nat,
    acc: Pixels,
    tint: Color,
    base: u8,
    step: nat,
    w: nat,
    h: nat,
)
    requires
        has_size(acc, w, h),
    ensures
        has_size(ghost_flatten(f, n, acc, tint, base, step), w, h),
    decreases n,
{
    if n > 0 {
        ghost_flatten_has_size(f, (n - 1) as nat, acc, tint, base, step, w, h);
    }
}

/// A frame of a single visible layer at full opacity, every pixel of which is
/// fully opaque, composites to that layer's grid.
pub proof fn composite_single_opaque_layer(f: FrameView)
    requires
        f.len() == 1,
        f[0].wf(),
        f[0].visible,
        f[0].opacity == 255,
        forall|x: int, y: int|
            0 <= y < f[0].height() && 0 <= x < f[0].width() ==> (#[trigger] f[0].pixels[y][x]).a
                == 255,
    ensures
        composed_frame(f) == f[0].pixels,
{
    let l = f[0];
    let blank = filled(l.width(), l.height(), Color::spec_transparent());
    assert(flatten(f, 0, blank) == blank);
    assert(flatten(f, 1, blank) == layered(blank, l));
    let out = layered(blank, l);
    assert forall|y: int| 0 <= y < out.len() implies #[trigger] out[y] =~= l.pixels[y] by {
        assert(l.pixels[y].len() == l.width());
        assert forall|x: int| 0 <= x < out[y].len() implies out[y][x] == l.pixels[y][x] by {
            let c = l.pixels[y][x];
            assert(c.a == 255);
            assert(c.spec_faded(255) == c);
            crate::color::blend_opaque_foreground(blank[y][x], c);
        }
    }
    assert(out =~= l.pixels);
}

/// A layer without any alpha leaves the grid beneath it unchanged.
pub proof fn transparent_layer_changes_nothing(acc: Pixels, l: LayerView)
    requires
        forall|x: int, y: int|
            0 <= y < acc.len() && 0 <= x < acc[y].len() ==> (#[trigger] l.pixels[y][x]).a == 0,
    ensures
        layered(acc, l) == acc,
{
    let out = layered(acc, l);
    assert forall|y: int| 0 <= y < out.len() implies #[trigger] out[y] =~= acc[y] by {
        assert forall|x: int| 0 <= x < out[y].len() implies out[y][x] == acc[y][x] by {
            let c = l.pixels[y][x];
            assert(c.a == 0);
            assert(c.spec_faded(l.opacity).a == 0);
        }
    }
    assert(out =~= acc);
}

/// A visible layer at full opacity whose pixels are all fully opaque hides
/// whatever lies beneath it.
pub proof fn opaque_layer_hides_background(acc: Pixels, l: LayerView)
    requires
        l.visible,
        l.opacity == 255,
        acc.len() == l.pixels.len(),
        forall|y: int| 0 <= y < acc.len() ==> (#[trigger] acc[y]).len() == l.pixels[y].len(),
        forall|x: int, y: int|
            0 <= y < acc.len() && 0 <= x < acc[y].len() ==> (#[trigger] l.pixels[y][x]).a == 255,
    ensures
        layered(acc, l) == l.pixels,
{
    let out = layered(acc, l);
    assert forall|y: int| 0 <= y < out.len() implies #[trigger] out[y] =~= l.pixels[y] by {
        assert(acc[y].len() == l.pixels[y].len());
        assert forall|x: int| 0 <= x < out[y].len() implies out[y][x] == l.pixels[y][x] by {
            let c = l.pixels[y][x];
            assert(c.a == 255);
            assert(c.spec_faded(255) == c);
            crate::color::blend_opaque_foreground(acc[y][x], c);
        }
    }
    assert(out =~= l.pixels);
}

/// Lays one layer over `composed`, pixel by pixel.
pub fn compose_layer(composed: &mut Vec<Vec<Color>>, layer: &Layer)
    requires
        has_size(pixels(*old(composed)), layer@.width(), layer@.height()),
        layer.wf(),
    ensures
        pixels(*final(composed)) == layered(pixels(*old(composed)), layer@),
        has_size(pixels(*final(composed)), layer@.width(), layer@.height()),
{
    if !layer.visible {
        assert(pixels(*composed) =~~= layered(pixels(*old(composed)), layer@));
        return;
    }
    let height = layer.height();
    let width = layer.width();
    let ghost before = pixels(*old(composed));
    let ghost l = layer@;
    let mut y: usize = 0;
    while y < height
        invariant
            y <= height,
            l == layer@,
            l.visible,
            layer.wf(),
            height == l.height(),
            width == l.width(),
            has_size(before, width as nat, height as nat),
            composed.len() == height,
            forall|j: int| 0 <= j < y ==> (#[trigger] composed[j])@ == layered(before, l)[j],
            forall|j: int| y <= j < height ==> (#[trigger] composed[j])@ == before[j],
        decreases height - y,
    {
        assert(before[y as int].len() == width);
        assert(l.pixels[y as int].len() == width);
        let mut x: usize = 0;
        while x < width
            invariant
                y < height,
                x <= width,
                l == layer@,
                l.visible,
                height == l.height(),
                width == l.width(),
                l.pixels[y as int].len() == width,
                before[y as int].len() == width,
                before.len() == height,
                composed.len() == height,
                composed[y as int].len() == width,
                forall|j: int| 0 <= j < y ==> (#[trigger] composed[j])@ == layered(before, l)[j],
                forall|j: int| y < j < height ==> (#[trigger] composed[j])@ == before[j],
                forall|i: int|
                    0 <= i < x ==> (#[trigger] composed[y as int][i]) == layer_over(
                        before[y as int][i],
                        l,
                        i,
                        y as int,
                    ),
                forall|i: int| x <= i < width ==> (#[trigger] composed[y as int][i]) == before[y as int][i],
            decreases width - x,
        {
            let c = layer.grid[y][x];
            assert(l.pixels[y as int][x as int] == c);
            if c.a > 0 {
                let fg = c.faded(layer.opacity);
                if fg.a == 255 {
                    proof {
                        crate::color::blend_opaque_foreground(before[y as int][x as int], fg);
                    }
                    composed[y][x] = fg;
                } else if fg.a > 0 {
                    let bg = composed[y][x];
                    composed[y][x] = blend_colors(bg, fg);
                }
            } else {
                proof {
                    crate::color::scaled_alpha_of_nothing(layer.opacity);
                }
            }
            x += 1;
        }
        assert(composed[y as int]@ =~= layered(before, l)[y as int]);
        y += 1;
    }
    assert(pixels(*composed) =~= layered(before, l));
}

/// Lays one layer of a neighbouring frame over `composed`, tinted and faded.
pub fn compose_ghost_layer(
    composed: &mut Vec<Vec<Color>>,
    layer: &Layer,
    tint: Color,
    base: u8,
    step: usize,
)
    requires
        has_size(pixels(*old(composed)), layer@.width(), layer@.height()),
        layer.wf(),
    ensures
        pixels(*final(composed)) == ghost_layered(
            pixels(*old(composed)),
            layer@,
            tint,
            base,
            step as nat,
        ),
        has_size(pixels(*final(composed)), layer@.width(), layer@.height()),
{
    if !layer.visible {
        assert(pixels(*composed) =~~= ghost_layered(
            pixels(*old(composed)),
            layer@,
            tint,
            base,
            step as nat,
        ));
        return;
    }
    let height = layer.height();
    let width = layer.width();
    let ghost before = pixels(*old(composed));
    let ghost l = layer@;
    let ghost after = ghost_layered(before, l, tint, base, step as nat);
    let mut y: usize = 0;
    while y < height
        invariant
            y <= height,
            l == layer@,
            l.visible,
            layer.wf(),
            height == l.height(),
            width == l.width(),
            has_size(before, width as nat, height as nat),
            after == ghost_layered(before, l, tint, base, step as nat),
            composed.len() == height,
            forall|j: int| 0 <= j < y ==> (#[trigger] composed[j])@ == after[j],
            forall|j: int| y <= j < height ==> (#[trigger] composed[j])@ == before[j],
        decreases height - y,
    {
        assert(before[y as int].len() == width);
        assert(l.pixels[y as int].len() == width);
        let mut x: usize = 0;
        while x < width
            invariant
                y < height,
                x <= width,
                l == layer@,
                l.visible,
                height == l.height(),
                width == l.width(),
                l.pixels[y as int].len() == width,
                before[y as int].len() == width,
                before.len() == height,
                composed.len() == height,
                composed[y as int].len() == width,
                forall|j: int| 0 <= j < y ==> (#[trigger] composed[j])@ == after[j],
                forall|j: int| y < j < height ==> (#[trigger] composed[j])@ == before[j],
                forall|i: int|
                    0 <= i < x ==> (#[trigger] composed[y as int][i]) == ghost_over(
                        before[y as int][i],
                        l,
                        tint,
                        base,
                        step as nat,
                        i,
                        y as int,
                    ),
                forall|i: int| x <= i < width ==> (#[trigger] composed[y as int][i]) == before[y as int][i],
            decreases width - x,
        {
            let c = layer.grid[y][x];
            assert(l.pixels[y as int][x as int] == c);
            if c.a > 0 {
                let fg = c.ghosted(tint, base, step);
                if fg.a > 0 {
                    let bg = composed[y][x];
                    composed[y][x] = blend_colors(bg, fg);
                }
            } else {
                proof {
                    crate::color::ghost_alpha_of_nothing(base, step as nat);
                }
            }
            x += 1;
        }
        assert(composed[y as int]@ =~= after[y as int]);
        y += 1;
    }
    assert(pixels(*composed) =~= after);
}

/// Lays every layer of `frame` over `composed`, bottom first.
pub fn compose_frame_onto(frame: &Frame, composed: &mut Vec<Vec<Color>>)
    requires
        frame.wf(),
        has_size(pixels(*old(composed)), frame@[0].width(), frame@[0].height()),
    ensures
        pixels(*final(composed)) == flatten(frame@, frame@.len(), pixels(*old(composed))),
        has_size(pixels(*final(composed)), frame@[0].width(), frame@[0].height()),
{
    let ghost before = pixels(*old(composed));
    let ghost w = frame@[0].width();
    let ghost h = frame@[0].height();
    let mut i: usize = 0;
    while i < frame.layers.len()
        invariant
            i <= frame.layers.len(),
            frame.wf(),
            w == frame@[0].width(),
            h == frame@[0].height(),
            has_size(pixels(*composed), w, h),
            pixels(*composed) == flatten(frame@, i as nat, before),
        decreases frame.layers.len() - i,
    {
        let layer = &frame.layers[i];
        proof {
            assert(frame@[i as int] == layer@);
            crate::grid::sized_is_rectangular(layer@.pixels, w, h);
        }
        compose_layer(composed, layer);
        i += 1;
    }
}

/// Lays every layer of a neighbouring frame over `composed`, tinted with
/// `tint` and faded to `base` less a fifth for every step of distance.
pub fn compose_frame_with_opacity(
    frame: &Frame,
    composed: &mut Vec<Vec<Color>>,
    base: u8,
    step: usize,
    tint: Color,
)
    requires
        frame.wf(),
        has_size(pixels(*old(composed)), frame@[0].width(), frame@[0].height()),
    ensures
        pixels(*final(composed)) == ghost_flatten(
            frame@,
            frame@.len(),
            pixels(*old(composed)),
            tint,
            base,
            step as nat,
        ),
        has_size(pixels(*final(composed)), frame@[0].width(), frame@[0].height()),
{
    let ghost before = pixels(*old(composed));
    let ghost w = frame@[0].width();
    let ghost h = frame@[0].height();
    let mut i: usize = 0;
    while i < frame.layers.len()
        invariant
            i <= frame.layers.len(),
            frame.wf(),
            w == frame@[0].width(),
            h == frame@[0].height(),
            has_size(pixels(*composed), w, h),
            pixels(*composed) == ghost_flatten(frame@, i as nat, before, tint, base, step as nat),
        decreases frame.layers.len() - i,
    {
        let layer = &frame.layers[i];
        proof {
            assert(frame@[i as int] == layer@);
            crate::grid::sized_is_rectangular(layer@.pixels, w, h);
        }
        compose_ghost_layer(composed, layer, tint, base, step);
        i += 1;
    }
}

/// Flattens one frame onto a transparent grid of its size.
pub fn compose_frame(frame: &Frame) -> (composed: Vec<Vec<Color>>)
    requires
        frame.wf(),
    ensures
        pixels(composed) == composed_frame(frame@),
        has_size(pixels(composed), frame@[0].width(), frame@[0].height()),
{
    let width = frame.width();
    let height = frame.height();
    let mut composed = new_grid(width, height, Color::transparent());
    compose_frame_onto(frame, &mut composed);
    composed
}

/// Every frame of the list is a frame of `w` by `h` pixels.
pub open spec fn frames_have_size(frames: Seq<FrameView>, w: nat, h: nat) -> bool {
    forall|i: int| 0 <= i < frames.len() ==> frame_has_size(#[trigger] frames[i], w, h)
}

/// The displayable grid of frame `idx` of `frames`.
pub fn compose(frames: &Vec<Frame>, idx: usize, onion: OnionSkin) -> (composed: Vec<Vec<Color>>)
    requires
        idx < frames.len(),
        frames_have_size(
            frames_view(*frames),
            frames_view(*frames)[idx as int][0].width(),
            frames_view(*frames)[idx as int][0].height(),
        ),
    ensures
        pixels(composed) == composite(frames_view(*frames), idx as int, onion),
        has_size(
            pixels(composed),
            frames_view(*frames)[idx as int][0].width(),
            frames_view(*frames)[idx as int][0].height(),
        ),
{
    let ghost fv = frames_view(*frames);
    let ghost w = fv[idx as int][0].width();
    let ghost h = fv[idx as int][0].height();
    assert(frame_has_size(fv[idx as int], w, h));
    assert(frames[idx as int]@ == fv[idx as int]);
    proof {
        frame_size_is_wf(fv[idx as int], w, h);
    }
    let frame = &frames[idx];
    let width = frame.width();
    let height = frame.height();
    let mut composed = new_grid(width, height, Color::transparent());
    let ghost blank = pixels(composed);
    let ghost before = blank;
    let ghost around = blank;
    if onion.enabled {
        let shown: usize = if onion.prev_frames <= idx {
            onion.prev_frames
        } else {
            idx
        };
        let mut i: usize = 1;
        while i <= shown
            invariant
                1 <= i <= shown + 1,
                shown <= idx < frames.len(),
                fv == frames_view(*frames),
                frames_have_size(fv, w, h),
                has_size(pixels(composed), w, h),
                pixels(composed) == past_frames(fv, idx as int, (i - 1) as nat, blank, onion.opacity),
            decreases shown + 1 - i,
        {
            let prev = &frames[idx - i];
            proof {
                assert(frame_has_size(fv[idx - i], w, h));
                assert(prev@ == fv[idx - i]);
                frame_size_is_wf(prev@, w, h);
            }
            compose_frame_with_opacity(prev, &mut composed, onion.opacity, i, Color::blue());
            i += 1;
        }
        proof {
            before = pixels(composed);
        }
        let rest: usize = frames.len() - 1 - idx;
        let shown: usize = if onion.next_frames <= rest {
            onion.next_frames
        } else {
            rest
        };
        let mut i: usize = 1;
        while i <= shown
            invariant
                1 <= i <= shown + 1,
                idx + shown < frames.len(),
                fv == frames_view(*frames),
                frames_have_size(fv, w, h),
                has_size(pixels(composed), w, h),
                pixels(composed) == future_frames(
                    fv,
                    idx as int,
                    (i - 1) as nat,
                    before,
                    onion.opacity,
                ),
            decreases shown + 1 - i,
        {
            let next = &frames[idx + i];
            proof {
                assert(frame_has_size(fv[idx + i], w, h));
                assert(next@ == fv[idx + i]);
                frame_size_is_wf(next@, w, h);
            }
            compose_frame_with_opacity(next, &mut composed, onion.opacity, i, Color::red());
            i += 1;
        }
    }
    compose_frame_onto(frame, &mut composed);
    composed
}

/// A frame whose layers all have one size is well formed, with that size.
pub proof fn frame_size_is_wf(f: FrameView, w: nat, h: nat)
    requires
        frame_has_size(f, w, h),
    ensures
        frame_wf(f),
        f[0].height() == h,
        h > 0 ==> f[0].width() == w,
        frame_has_size(f, f[0].width(), f[0].height()),
{
    assert(has_size(f[0].pixels, w, h));
    crate::grid::sized_is_rectangular(f[0].pixels, w, h);
    if h == 0 {
        assert forall|i: int| 0 <= i < f.len() implies has_size(
            (#[trigger] f[i]).pixels,
            f[0].width(),
            f[0].height(),
        ) by {
            assert(has_size(f[i].pixels, w, h));
        }
    }
}

/// The composite of a frame has the size of the frames.
pub proof fn composite_has_size(frames: Seq<FrameView>, idx: int, onion: OnionSkin, w: nat, h: nat)
    requires
        0 <= idx < frames.len(),
        frames_have_size(frames, w, h),
    ensures
        has_size(composite(frames, idx, onion), frames[idx][0].width(), frames[idx][0].height()),
        frames[idx][0].height() == h,
        h > 0 ==> frames[idx][0].width() == w,
{
    let f = frames[idx];
    frame_size_is_wf(f, w, h);
    let fw = f[0].width();
    let fh = f[0].height();
    let blank = filled(fw, fh, Color::spec_transparent());
    past_frames_have_size(frames, idx, shown_before(idx, onion), blank, onion.opacity, fw, fh);
    let before = past_frames(frames, idx, shown_before(idx, onion), blank, onion.opacity);
    future_frames_have_size(
        frames,
        idx,
        shown_after(frames.len() as int, idx, onion),
        before,
        onion.opacity,
        fw,
        fh,
    );
    let around = future_frames(
        frames,
        idx,
        shown_after(frames.len() as int, idx, onion),
        before,
        onion.opacity,
    );
    flatten_has_size(f, f.len(), around, fw, fh);
}

/// The frames before `idx` keep the size of the grid they are laid over.
pub proof fn past_frames_have_size(
    frames: Seq<FrameView>,
    idx: int,
    k: nat,
    acc: Pixels,
    base: u8,
    w: nat,
    h: nat,
)
    requires
        has_size(acc, w, h),
    ensures
        has_size(past_frames(frames, idx, k, acc, base), w, h),
    decreases k,
{
    if k > 0 {
        past_frames_have_size(frames, idx, (k - 1) as nat, acc, base, w, h);
        let f = frames[idx - k];
        ghost_flatten_has_size(
            f,
            f.len(),
            past_frames(frames, idx, (k - 1) as nat, acc, base),
            past_tint(),
            base,
            k,
            w,
            h,
        );
    }
}

/// The frames after `idx` keep the size of the grid they are laid over.
pub proof fn future_frames_have_size(
    frames: Seq<FrameView>,
    idx: int,
    k: nat,
    acc: Pixels,
    base: u8,
    w: nat,
    h: nat,
)
    requires
        has_size(acc, w, h),
    ensures
        has_size(future_frames(frames, idx, k, acc, base), w, h),
    decreases k,
{
    if k > 0 {
        future_frames_have_size(frames, idx, (k - 1) as nat, acc, base, w, h);
        let f = frames[idx + k];
        ghost_flatten_has_size(
            f,
            f.len(),
            future_frames(frames, idx, (k - 1) as nat, acc, base),
            future_tint(),
            base,
            k,
            w,
            h,
        );
    }
}

/// Two lists of frames whose layers differ in their names only.
pub open spec fn same_but_names(a: Seq<FrameView>, b: Seq<FrameView>) -> bool {
    &&& a.len() == b.len()
    &&& forall|i: int| 0 <= i < a.len() ==> (#[trigger] a[i]).len() == b[i].len()
    &&& forall|i: int, j: int|
        0 <= i < a.len() && 0 <= j < a[i].len() ==> (#[trigger] a[i][j]).visible == b[i][j].visible
            && a[i][j].opacity == b[i][j].opacity && a[i][j].pixels == b[i][j].pixels
}

/// Laying a layer over a grid does not depend on the layer's name.
proof fn layered_ignores_name(acc: Pixels, l: LayerView, m: LayerView)
    requires
        l.visible == m.visible,
        l.opacity == m.opacity,
        l.pixels == m.pixels,
    ensures
        layered(acc, l) == layered(acc, m),
        forall|tint: Color, base: u8, step: nat|
            #[trigger] ghost_layered(acc, l, tint, base, step) == ghost_layered(
                acc,
                m,
                tint,
                base,
                step,
            ),
{
    assert(layered(acc, l) =~~= layered(acc, m));
    assert forall|tint: Color, base: u8, step: nat|
        #[trigger] ghost_layered(acc, l, tint, base, step) == ghost_layered(
            acc,
            m,
            tint,
            base,
            step,
        ) by {
        assert(ghost_layered(acc, l, tint, base, step) =~~= ghost_layered(acc, m, tint, base, step));
    }
}

/// Flattening does not depend on the layers' names.
proof fn flatten_ignores_names(f: FrameView, g: FrameView, n: nat, base: Pixels)
    requires
        f.len() == g.len(),
        n <= f.len(),
        forall|j: int|
            0 <= j < f.len() ==> (#[trigger] f[j]).visible == g[j].visible && f[j].opacity
                == g[j].opacity && f[j].pixels == g[j].pixels,
    ensures
        flatten(f, n, base) == flatten(g, n, base),
        forall|tint: Color, b: u8, step: nat|
            #[trigger] ghost_flatten(f, n, base, tint, b, step) == ghost_flatten(
                g,
                n,
                base,
                tint,
                b,
                step,
            ),
    decreases n,
{
    if n > 0 {
        flatten_ignores_names(f, g, (n - 1) as nat, base);
        assert(f[n - 1].visible == g[n - 1].visible);
        layered_ignores_name(flatten(f, (n - 1) as nat, base), f[n - 1], g[n - 1]);
        assert forall|tint: Color, b: u8, step: nat|
            #[trigger] ghost_flatten(f, n, base, tint, b, step) == ghost_flatten(
                g,
                n,
                base,
                tint,
                b,
                step,
            ) by {
            let below = ghost_flatten(f, (n - 1) as nat, base, tint, b, step);
            assert(below == ghost_flatten(g, (n - 1) as nat, base, tint, b, step));
            layered_ignores_name(below, f[n - 1], g[n - 1]);
        }
    }
}

/// The neighbouring frames do not depend on the layers' names.
proof fn neighbours_ignore_names(
    a: Seq<FrameView>,
    b: Seq<FrameView>,
    idx: int,
    k: nat,
    acc: Pixels,
    base: u8,
)
    requires
        same_but_names(a, b),
        0 <= idx < a.len(),
    ensures
        k <= idx ==> past_frames(a, idx, k, acc, base) == past_frames(b, idx, k, acc, base),
        idx + k < a.len() ==> future_frames(a, idx, k, acc, base) == future_frames(
            b,
            idx,
            k,
            acc,
            base,
        ),
    decreases k,
{
    if k > 0 {
        neighbours_ignore_names(a, b, idx, (k - 1) as nat, acc, base);
        if k <= idx {
            let f = a[idx - k];
            let g = b[idx - k];
            assert(f.len() == g.len());
            assert forall|j: int| 0 <= j < f.len() implies (#[trigger] f[j]).visible
                == g[j].visible && f[j].opacity == g[j].opacity && f[j].pixels == g[j].pixels by {
                assert(a[idx - k][j].visible == b[idx - k][j].visible);
            }
            flatten_ignores_names(f, g, f.len(), past_frames(a, idx, (k - 1) as nat, acc, base));
        }
        if idx + k < a.len() {
            let f = a[idx + k];
            let g = b[idx + k];
            assert(f.len() == g.len());
            assert forall|j: int| 0 <= j < f.len() implies (#[trigger] f[j]).visible
                == g[j].visible && f[j].opacity == g[j].opacity && f[j].pixels == g[j].pixels by {
                assert(a[idx + k][j].visible == b[idx + k][j].visible);
            }
            flatten_ignores_names(f, g, f.len(), future_frames(a, idx, (k - 1) as nat, acc, base));
        }
    }
}

/// The composite does not depend on the layers' names.
pub proof fn composite_ignores_names(a: Seq<FrameView>, b: Seq<FrameView>, idx: int, onion: OnionSkin)
    requires
        same_but_names(a, b),
        0 <= idx < a.len(),
        a[idx].len() > 0,
    ensures
        composite(a, idx, onion) == composite(b, idx, onion),
{
    let f = a[idx];
    let g = b[idx];
    assert(f.len() == g.len());
    assert forall|j: int| 0 <= j < f.len() implies (#[trigger] f[j]).visible == g[j].visible
        && f[j].opacity == g[j].opacity && f[j].pixels == g[j].pixels by {
        assert(a[idx][j].visible == b[idx][j].visible);
    }
    assert(f[0].pixels == g[0].pixels);
    let blank = filled(f[0].width(), f[0].height(), Color::spec_transparent());
    neighbours_ignore_names(a, b, idx, shown_before(idx, onion), blank, onion.opacity);
    let before = past_frames(a, idx, shown_before(idx, onion), blank, onion.opacity);
    neighbours_ignore_names(
        a,
        b,
        idx,
        shown_after(a.len() as int, idx, onion),
        before,
        onion.opacity,
    );
    let around = future_frames(
        a,
        idx,
        shown_after(a.len() as int, idx, onion),
        before,
        onion.opacity,
    );
    flatten_ignores_names(f, g, f.len(), around);
}

} // verus!
