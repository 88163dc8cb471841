//! Layers and frames.
//!
//! A layer is one editable grid with a name, a visibility flag and an
//! opacity. A frame is a stack of layers of one size, painted in list order.

use vstd::prelude::*;
use crate::color::Color;
use crate::grid::{Pixels, pixels, width_of, rectangular, has_size, filled, in_bounds, with_pixel,
    new_grid, copy_grid};

verus! {

/// One editable grid of pixels. `opacity` is in units of 1/255.
#[derive(Clone, Debug)]
pub struct Layer {
    pub name: String,
    pub visible: bool,
    pub opacity: u8,
    pub grid: Vec<Vec<Color>>,
}

/// The model of a layer.
pub struct LayerView {
    pub name: Seq<char>,
    pub visible: bool,
    pub opacity: u8,
    pub pixels: Pixels,
}

impl View for Layer {
    type V = LayerView;

    open spec fn view(&self) -> LayerView {
        LayerView {
            name: self.name@,
            visible: self.visible,
            opacity: self.opacity,
            pixels: pixels(self.grid),
        }
    }
}

impl LayerView {
    /// The grid is rectangular.
    pub open spec fn wf(self) -> bool {
        rectangular(self.pixels)
    }

    /// The number of pixels in a row.
    pub open spec fn width(self) -> nat {
        width_of(self.pixels)
    }

    /// The number of rows.
    pub open spec fn height(self) -> nat {
        self.pixels.len()
    }

    /// This layer with another grid.
    pub open spec fn with_pixels(self, p: Pixels) -> LayerView {
        LayerView { name: self.name, visible: self.visible, opacity: self.opacity, pixels: p }
    }
}

impl Layer {
    /// The layer's invariant: its grid is rectangular.
    pub open spec fn wf(&self) -> bool {
        self@.wf()
    }

    /// A visible, fully opaque layer of one color.
    pub fn new(name: String, width: usize, height: usize, color: Color) -> (layer: Layer)
        ensures
            layer.wf(),
            layer@ == (LayerView {
                name: name@,
                visible: true,
                opacity: 255,
                pixels: filled(width as nat, height as nat, color),
            }),
            layer@.height() == height,
            height > 0 ==> layer@.width() == width,
    {
        let grid = new_grid(width, height, color);
        proof {
            crate::grid::sized_is_rectangular(pixels(grid), width as nat, height as nat);
        }
        Layer { name, visible: true, opacity: 255, grid }
    }

    /// The number of pixels in a row.
    pub fn width(&self) -> (w: usize)
        ensures
            w == self@.width(),
    {
        if self.grid.len() == 0 {
            0
        } else {
            self.grid[0].len()
        }
    }

    /// The number of rows.
    pub fn height(&self) -> (h: usize)
        ensures
            h == self@.height(),
    {
        self.grid.len()
    }

    /// The color at `(x, y)`, or `None` outside the layer.
    pub fn get_pixel(&self, x: usize, y: usize) -> (c: Option<Color>)
        ensures
            c == if in_bounds(self@.pixels, x as int, y as int) {
                Some(self@.pixels[y as int][x as int])
            } else {
                None
            },
    {
        crate::grid::get_pixel(&self.grid, x, y)
    }

    /// Writes `color` at `(x, y)`; outside the layer nothing happens.
    pub fn set_pixel(&mut self, x: usize, y: usize, color: Color)
        ensures
            final(self)@ == old(self)@.with_pixels(
                with_pixel(old(self)@.pixels, x as int, y as int, color),
            ),
            old(self).wf() ==> final(self).wf(),
    {
        crate::grid::set_pixel(&mut self.grid, x, y, color);
        proof {
            if old(self).wf() {
                let p = old(self)@.pixels;
                let q = self@.pixels;
                assert forall|j: int| 0 <= j < q.len() implies (#[trigger] q[j]).len() == width_of(
                    q,
                ) by {
                    assert(p[j].len() == width_of(p));
                    assert(p[0].len() == width_of(p));
                }
            }
        }
    }

    /// A copy of this layer: same name, flags and pixels.
    pub fn duplicate(&self) -> (copy: Layer)
        ensures
            copy@ == self@,
    {
        Layer {
            name: self.name.clone(),
            visible: self.visible,
            opacity: self.opacity,
            grid: copy_grid(&self.grid),
        }
    }
}

impl Default for Layer {
    /// A transparent 16×16 layer named "Layer 1".
    fn default() -> (layer: Layer)
        ensures
            layer.wf(),
            layer@ == (LayerView {
                name: "Layer 1"@,
                visible: true,
                opacity: 255,
                pixels: filled(16, 16, Color::transparent()),
            }),
    {
        Layer::new("Layer 1".to_owned(), 16, 16, Color::transparent())
    }
}

/// An ordered stack of layers; later layers paint over earlier ones.
#[derive(Clone, Debug)]
pub struct Frame {
    pub layers: Vec<Layer>,
}

/// The model of a frame: its layers, bottom first.
pub type FrameView = Seq<LayerView>;

/// A stack of layers is a frame: it has a layer, every layer is rectangular,
/// and all have the size of the first.
pub open spec fn frame_wf(f: FrameView) -> bool {
    &&& f.len() > 0
    &&& forall|i: int| 0 <= i < f.len() ==> has_size(
        (#[trigger] f[i]).pixels,
        f[0].width(),
        f[0].height(),
    )
}

/// The layers of `f` have `h` rows of `w` pixels.
pub open spec fn frame_has_size(f: FrameView, w: nat, h: nat) -> bool {
    &&& f.len() > 0
    &&& forall|i: int| 0 <= i < f.len() ==> has_size((#[trigger] f[i]).pixels, w, h)
}

impl View for Frame {
    type V = FrameView;

    open spec fn view(&self) -> FrameView {
        Seq::new(self.layers.len() as nat, |i: int| self.layers[i]@)
    }
}

impl Frame {
    /// The frame's invariant.
    pub open spec fn wf(&self) -> bool {
        frame_wf(self@)
    }

    /// A frame of one layer.
    pub fn new(layer: Layer) -> (frame: Frame)
        requires
            layer.wf(),
        ensures
            frame.wf(),
            frame@ == seq![layer@],
    {
        let mut layers: Vec<Layer> = Vec::new();
        layers.push(layer);
        let frame = Frame { layers };
        proof {
            assert(frame@ =~= seq![layer@]);
            crate::grid::rectangular_has_size(layer@.pixels);
        }
        frame
    }

    /// The width of the frame's layers.
    pub fn width(&self) -> (w: usize)
        requires
            self.wf(),
        ensures
            w == self@[0].width(),
    {
        self.layers[0].width()
    }

    /// The height of the frame's layers.
    pub fn height(&self) -> (h: usize)
        requires
            self.wf(),
        ensures
            h == self@[0].height(),
    {
        self.layers[0].height()
    }

    /// A copy of this frame, layer for layer.
    pub fn duplicate(&self) -> (copy: Frame)
        ensures
            copy@ == self@,
    {
        let mut layers: Vec<Layer> = Vec::new();
        let mut i: usize = 0;
        while i < self.layers.len()
            invariant
                i <= self.layers.len(),
                layers.len() == i,
                forall|j: int| 0 <= j < i ==> (#[trigger] layers[j])@ == self.layers[j]@,
            decreases self.layers.len() - i,
        {
            layers.push(self.layers[i].duplicate());
            i += 1;
        }
        let copy = Frame { layers };
        assert(copy@ =~= self@);
        copy
    }
}

impl Default for Frame {
    /// A frame of one default layer.
    fn default() -> (frame: Frame)
        ensures
            frame.wf(),
            frame@.len() == 1,
            frame@[0] == (LayerView {
                name: "Layer 1"@,
                visible: true,
                opacity: 255,
                pixels: filled(16, 16, Color::transparent()),
            }),
    {
        Frame::new(Layer::default())
    }
}

/// The model of a list of frames.
pub open spec fn frames_view(frames: Vec<Frame>) -> Seq<FrameView> {
    Seq::new(frames.len() as nat, |i: int| frames[i]@)
}

/// A copy of a list of frames.
pub fn copy_frames(frames: &Vec<Frame>) -> (copy: Vec<Frame>)
    ensures
        frames_view(copy) == frames_view(*frames),
{
    let mut copy: Vec<Frame> = Vec::new();
    let mut i: usize = 0;
    while i < frames.len()
        invariant
            i <= frames.len(),
            copy.len() == i,
            forall|j: int| 0 <= j < i ==> (#[trigger] copy[j])@ == frames[j]@,
        decreases frames.len() - i,
    {
        copy.push(frames[i].duplicate());
        i += 1;
    }
    assert(frames_view(copy) =~= frames_view(*frames));
    copy
}

} // verus!
