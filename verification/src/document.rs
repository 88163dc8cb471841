//! Changes to the document as a whole: a new canvas, another canvas size,
//! and the lists of layers and frames.
//!
//! Every change that adds, removes or reorders something saves a
//! checkpoint first, puts the cursor back on a layer that exists, and marks
//! the cached image as out of date. A change that would leave a frame
//! without layers, the document without frames, or more layers or frames
//! than the canvas size allows, is refused: it returns `false` and changes
//! nothing.

use vstd::prelude::*;
use vstd::string::*;
use crate::color::Color;
use crate::grid::{pixels, has_size, filled, rectangular, new_grid};
use crate::layer::{Layer, LayerView, Frame, FrameView, frame_has_size, frames_view};
use crate::compositor::frames_have_size;
use crate::editor::{PixelArtEditor, EditorView, DocView, sized_frames_make_document};
use crate::resize::{resized_frames, resize_frames, all_rectangular};

verus! {

/// How many layers a frame of a `width` by `height` canvas may have: 64 up
/// to 64 by 64 pixels, 32 up to 256 by 256, 16 up to 512 by 512, and 8
/// beyond.
pub open spec fn layer_limit(width: int, height: int) -> int {
    let area = width * height;
    if area <= 4096 {
        64
    } else if area <= 65536 {
        32
    } else if area <= 262144 {
        16
    } else {
        8
    }
}

/// A canvas with more pixels allows no more layers.
pub proof fn layer_limit_shrinks(w1: int, h1: int, w2: int, h2: int)
    requires
        w1 * h1 <= w2 * h2,
    ensures
        layer_limit(w2, h2) <= layer_limit(w1, h1),
{
}

/// How many layers a frame of a `width` by `height` canvas may have.
pub fn get_max_layers_for_size(width: usize, height: usize) -> (limit: usize)
    ensures
        limit == layer_limit(width as int, height as int),
{
    match width.checked_mul(height) {
        Some(area) => {
            if area <= 4096 {
                64
            } else if area <= 65536 {
                32
            } else if area <= 262144 {
                16
            } else {
                8
            }
        },
        None => 8,
    }
}

/// How many frames a document of a `width` by `height` canvas may have:
/// as many as a frame may have layers.
pub fn get_max_frames_for_size(width: usize, height: usize) -> (limit: usize)
    ensures
        limit == layer_limit(width as int, height as int),
{
    get_max_layers_for_size(width, height)
}

impl DocView {
    /// The layers of the frame being edited, bottom first.
    pub open spec fn layers(self) -> FrameView {
        self.frames[self.current_frame]
    }

    /// The layers that the canvas size allows in a frame, and the frames
    /// that it allows in the document.
    pub open spec fn limit(self) -> int {
        layer_limit(self.width() as int, self.height() as int)
    }

    /// A transparent layer of the canvas size.
    pub open spec fn blank_layer(self, name: Seq<char>) -> LayerView {
        LayerView {
            name,
            visible: true,
            opacity: 255,
            pixels: filled(self.width(), self.height(), Color::spec_transparent()),
        }
    }

    /// The document with a transparent layer on top of the frame being
    /// edited, and the cursor on it.
    pub open spec fn layer_added(self, name: Seq<char>) -> DocView {
        self.with_layers(self.layers().push(self.blank_layer(name)), self.layers().len() as int)
    }

    /// The document without layer `index` of the frame being edited; a
    /// cursor beyond the last layer is back on it.
    pub open spec fn layer_removed(self, index: int) -> DocView {
        self.with_layers(
            self.layers().remove(index),
            if self.current_layer >= self.layers().len() - 1 {
                self.layers().len() - 2
            } else {
                self.current_layer
            },
        )
    }

    /// The document with layer `index` of the frame being edited
    /// replaced.
    pub open spec fn layer_set(self, index: int, layer: LayerView) -> DocView {
        self.with_layers(self.layers().update(index, layer), self.current_layer)
    }

    /// The document with a copy of layer `index` of the frame being edited
    /// above it, and the cursor on the copy.
    pub open spec fn layer_duplicated(self, index: int) -> DocView {
        self.with_layers(
            self.layers().insert(index + 1, copy_named(self.layers()[index])),
            index + 1,
        )
    }

    /// The document with the layers `lower` and `lower + 1` of the frame
    /// being edited exchanged, and the cursor on `cursor`.
    pub open spec fn layers_exchanged(self, lower: int, cursor: int) -> DocView {
        self.with_layers(exchanged(self.layers(), lower), cursor)
    }

    /// The document with a copy of frame `index` after it, and the cursor
    /// on the copy's first layer.
    pub open spec fn frame_duplicated(self, index: int) -> DocView {
        self.rebuilt(self.frames.insert(index + 1, self.frames[index]), index + 1, 0)
    }

    /// The document without frame `index`; a cursor beyond the last frame
    /// is back on it, and on the first layer of its frame.
    pub open spec fn frame_removed(self, index: int) -> DocView {
        self.rebuilt(
            self.frames.remove(index),
            if self.current_frame >= self.frames.len() - 1 {
                self.frames.len() - 2
            } else {
                self.current_frame
            },
            0,
        )
    }

    /// The document with the cursor elsewhere.
    pub open spec fn at(self, current_frame: int, current_layer: int) -> DocView {
        DocView { frames: self.frames, current_frame, current_layer }
    }

    /// The document with other frames and the cursor elsewhere.
    pub open spec fn rebuilt(self, frames: Seq<FrameView>, current_frame: int, current_layer: int) -> DocView {
        DocView { frames, current_frame, current_layer }
    }

    /// The document with another list of layers in the frame being edited.
    pub open spec fn with_layers(self, layers: FrameView, current_layer: int) -> DocView {
        DocView {
            frames: self.frames.update(self.current_frame, layers),
            current_frame: self.current_frame,
            current_layer,
        }
    }
}

/// A one-layer document of one color, with the layer named "Background".
pub open spec fn blank_document(width: nat, height: nat, color: Color) -> DocView {
    DocView {
        frames: seq![
            seq![
                LayerView {
                    name: "Background"@,
                    visible: true,
                    opacity: 255,
                    pixels: filled(width, height, color),
                },
            ],
        ],
        current_frame: 0,
        current_layer: 0,
    }
}

impl EditorView {
    /// This state with another document, the cache marked dirty, and the
    /// frame being played the first where the old one is gone.
    pub open spec fn with_new_doc(self, doc: DocView) -> EditorView {
        EditorView {
            doc,
            cache_dirty: true,
            animation_frame: if self.animation_frame < doc.frames.len() {
                self.animation_frame
            } else {
                0
            },
            ..self
        }
    }
}

impl PixelArtEditor {
    /// The width of the canvas.
    pub fn canvas_width(&self) -> (w: usize)
        requires
            self.wf(),
        ensures
            w == self@.doc.width(),
    {
        proof {
            let d = self@.doc;
            assert(frame_has_size(d.frames[0], d.width(), d.height()));
            assert(d.frames[0] == self.frames[0]@);
        }
        self.frames[0].layers[0].width()
    }

    /// The height of the canvas.
    pub fn canvas_height(&self) -> (h: usize)
        requires
            self.wf(),
        ensures
            h == self@.doc.height(),
    {
        proof {
            let d = self@.doc;
            assert(frame_has_size(d.frames[0], d.width(), d.height()));
            assert(d.frames[0] == self.frames[0]@);
        }
        self.frames[0].layers[0].height()
    }

    /// Every layer of the document is rectangular.
    pub proof fn layers_are_rectangular(&self)
        requires
            self@.doc.wf(),
        ensures
            all_rectangular(frames_view(self.frames)),
    {
        let d = self@.doc;
        assert forall|i: int, j: int|
            0 <= i < d.frames.len() && 0 <= j < d.frames[i].len() implies rectangular(
            (#[trigger] d.frames[i][j]).pixels,
        ) by {
            assert(frame_has_size(d.frames[i], d.width(), d.height()));
            crate::grid::sized_is_rectangular(d.frames[i][j].pixels, d.width(), d.height());
        }
    }

    /// Replaces the document by one frame of one layer of one color. The
    /// history is kept as it is.
    pub fn new_document(&mut self, width: usize, height: usize, background: Color)
        requires
            old(self).wf(),
            width > 0,
            height > 0,
            width * height <= usize::MAX,
        ensures
            final(self).wf(),
            final(self)@ == old(self)@.with_new_doc(
                blank_document(width as nat, height as nat, background),
            ),
    {
        let layer = Layer {
            name: "Background".to_owned(),
            visible: true,
            opacity: 255,
            grid: new_grid(width, height, background),
        };
        let mut layers: Vec<Layer> = Vec::new();
        layers.push(layer);
        let mut frames: Vec<Frame> = Vec::new();
        frames.push(Frame { layers });
        self.frames = frames;
        self.current_frame = 0;
        self.current_layer = 0;
        if self.animation_frame >= 1 {
            self.animation_frame = 0;
        }
        self.cache_dirty = true;
        proof {
            let want = blank_document(width as nat, height as nat, background);
            assert(self.frames[0]@ =~= want.frames[0]);
            assert(self@.doc.frames =~= want.frames);
            sized_frames_make_document(want.frames, width as nat, height as nat, 0, 0);
        }
    }

    /// Puts the document on a canvas of another size, after a checkpoint:
    /// every layer of every frame keeps the pixels that overlap the new
    /// canvas, moved as the anchor says, on a transparent ground.
    pub fn resize_canvas(&mut self, new_width: usize, new_height: usize, anchor: usize)
        requires
            old(self).wf(),
            new_width > 0,
            new_height > 0,
            new_width * new_height <= usize::MAX,
        ensures
            final(self).wf(),
            final(self)@ == old(self)@.saved().with_doc(
                old(self)@.doc.rebuilt(
                    resized_frames(
                        old(self)@.doc.frames,
                        new_width as nat,
                        new_height as nat,
                        anchor,
                    ),
                    old(self)@.doc.current_frame,
                    old(self)@.doc.current_layer,
                ),
            ),
    {
        let ghost before = self@;
        self.push_undo();
        proof {
            self.layers_are_rectangular();
        }
        resize_frames(&mut self.frames, new_width, new_height, anchor);
        self.cache_dirty = true;
        proof {
            let frames = resized_frames(
                before.doc.frames,
                new_width as nat,
                new_height as nat,
                anchor,
            );
            assert forall|i: int| 0 <= i < frames.len() implies frame_has_size(
                #[trigger] frames[i],
                new_width as nat,
                new_height as nat,
            ) by {
                assert(frame_has_size(before.doc.frames[i], before.doc.width(), before.doc.height()));
            }
            assert(frame_has_size(
                before.doc.frames[before.doc.current_frame],
                before.doc.width(),
                before.doc.height(),
            ));
            sized_frames_make_document(
                frames,
                new_width as nat,
                new_height as nat,
                before.doc.current_frame,
                before.doc.current_layer,
            );
        }
    }

    /// Moves the cursor to the first layer of frame `index`. Refused where
    /// there is no such frame.
    pub fn select_frame(&mut self, index: usize) -> (done: bool)
        requires
            old(self).wf(),
        ensures
            final(self).wf(),
            done == (index < old(self)@.doc.frames.len()),
            done ==> final(self)@ == old(self)@.with_doc(old(self)@.doc.at(index as int, 0)),
            !done ==> final(self)@ == old(self)@,
    {
        if index >= self.frames.len() {
            return false;
        }
        proof {
            let d = self@.doc;
            assert(frame_has_size(d.frames[index as int], d.width(), d.height()));
        }
        self.current_frame = index;
        self.current_layer = 0;
        self.cache_dirty = true;
        true
    }

    /// Moves the cursor to layer `index` of the frame being edited.
    /// Refused where there is no such layer.
    pub fn select_layer(&mut self, index: usize) -> (done: bool)
        requires
            old(self).wf(),
        ensures
            final(self).wf(),
            done == (index < old(self)@.doc.layers().len()),
            done ==> final(self)@ == old(self)@.with_doc(
                old(self)@.doc.at(old(self)@.doc.current_frame, index as int),
            ),
            !done ==> final(self)@ == old(self)@,
    {
        proof {
            assert(self.frames[self.current_frame as int]@ == self@.doc.frames[self@.doc.current_frame]);
        }
        if index >= self.frames[self.current_frame].layers.len() {
            return false;
        }
        self.current_layer = index;
        self.cache_dirty = true;
        true
    }

    /// What the invariant says of the frame being edited.
    pub proof fn current_frame_facts(&self)
        requires
            self.wf(),
        ensures
            self.current_frame < self.frames.len(),
            self.frames[self.current_frame as int]@ == self@.doc.frames[self@.doc.current_frame],
            self.frames[self.current_frame as int].layers.len() > 0,
            frame_has_size(
                self@.doc.frames[self@.doc.current_frame],
                self@.doc.width(),
                self@.doc.height(),
            ),
    {
        let d = self@.doc;
        assert(frame_has_size(d.frames[d.current_frame], d.width(), d.height()));
    }

    /// Marks the cache dirty and takes the frame being played back to the
    /// first where it is gone.
    fn settle(&mut self)
        ensures
            final(self)@ == old(self)@.with_new_doc(old(self)@.doc),
    {
        if self.animation_frame >= self.frames.len() {
            self.animation_frame = 0;
        }
        self.cache_dirty = true;
    }

    /// An editor that differs from a checkpointed one in its document and
    /// in what `settle` sets is well formed where the new document is.
    proof fn settled_is_wf(&self, saved: EditorView, doc: DocView)
        requires
            saved.wf(),
            doc.wf(),
            self@ == saved.with_new_doc(doc),
        ensures
            self.wf(),
    {
    }

    /// Adds a transparent layer with the given name on top of the frame
    /// being edited, after a checkpoint, and moves the cursor to it.
    /// Refused where the frame has as many layers as the canvas size
    /// allows.
    pub fn add_layer(&mut self, name: String) -> (done: bool)
        requires
            old(self).wf(),
        ensures
            final(self).wf(),
            done == (old(self)@.doc.layers().len() < old(self)@.doc.limit()),
            done ==> final(self)@ == old(self)@.saved().with_new_doc(
                old(self)@.doc.layer_added(name@),
            ),
            !done ==> final(self)@ == old(self)@,
    {
        let ghost before = self@;
        let width = self.canvas_width();
        let height = self.canvas_height();
        proof {
            self.current_frame_facts();
        }
        let cf = self.current_frame;
        if self.frames[cf].layers.len() >= get_max_layers_for_size(width, height) {
            return false;
        }
        self.push_undo();
        let ghost mid = *self;
        let layer = Layer::new(name, width, height, Color::transparent());
        self.frames[cf].layers.push(layer);
        self.current_layer = self.frames[cf].layers.len() - 1;
        proof {
            let d = before.doc;
            let old_layers = d.frames[d.current_frame];
            let layers = old_layers.push(layer@);
            let doc = d.with_layers(layers, old_layers.len() as int);
            assert(mid.frames[cf as int]@ == frames_view(mid.frames)[cf as int]);
            assert forall|j: int| 0 <= j < old_layers.len() implies (
            #[trigger] mid.frames[cf as int].layers[j])@ == old_layers[j] by {
                assert(mid.frames[cf as int]@[j] == old_layers[j]);
            }
            assert(self.frames[cf as int]@ =~= layers);
            assert(self@.doc.frames =~= doc.frames);
            assert(self@.doc == doc);
        }
        self.settle();
        proof {
            let d = before.doc;
            let old_layers = d.frames[d.current_frame];
            let layers = old_layers.push(layer@);
            let doc = d.with_layers(layers, old_layers.len() as int);
            assert forall|j: int| 0 <= j < layers.len() implies has_size(
                (#[trigger] layers[j]).pixels,
                d.width(),
                d.height(),
            ) by {
                assert(frame_has_size(old_layers, d.width(), d.height()));
                if j < old_layers.len() {
                    assert(layers[j] == old_layers[j]);
                }
            }
            layers_replaced(d, layers, doc.current_layer);
            self.settled_is_wf(before.saved(), doc);
        }
        true
    }

    /// Removes layer `index` of the frame being edited, after a
    /// checkpoint; a cursor beyond the last layer moves back onto it.
    /// Refused where there is no such layer or it is the frame's only one.
    pub fn remove_layer(&mut self, index: usize) -> (done: bool)
        requires
            old(self).wf(),
        ensures
            final(self).wf(),
            done == (index < old(self)@.doc.layers().len() && old(self)@.doc.layers().len() > 1),
            done ==> final(self)@ == old(self)@.saved().with_new_doc(
                old(self)@.doc.layer_removed(index as int),
            ),
            !done ==> final(self)@ == old(self)@,
    {
        let ghost before = self@;
        proof {
            self.current_frame_facts();
        }
        let cf = self.current_frame;
        let count = self.frames[cf].layers.len();
        if index >= count || count <= 1 {
            return false;
        }
        self.push_undo();
        let ghost mid = *self;
        self.frames[cf].layers.remove(index);
        if self.current_layer >= count - 1 {
            self.current_layer = count - 2;
        }
        proof {
            let d = before.doc;
            let old_layers = d.frames[d.current_frame];
            let layers = old_layers.remove(index as int);
            let doc = d.with_layers(layers, self.current_layer as int);
            assert(mid.frames[cf as int]@ == frames_view(mid.frames)[cf as int]);
            assert forall|j: int| 0 <= j < old_layers.len() implies (
            #[trigger] mid.frames[cf as int].layers[j])@ == old_layers[j] by {
                assert(mid.frames[cf as int]@[j] == old_layers[j]);
            }
            assert(self.frames[cf as int]@ =~= layers);
            assert(self@.doc.frames =~= doc.frames);
            assert(self@.doc == doc);
        }
        self.settle();
        proof {
            let d = before.doc;
            let old_layers = d.frames[d.current_frame];
            let layers = old_layers.remove(index as int);
            let doc = d.with_layers(layers, self.current_layer as int);
            assert forall|j: int| 0 <= j < layers.len() implies has_size(
                (#[trigger] layers[j]).pixels,
                d.width(),
                d.height(),
            ) by {
                assert(frame_has_size(old_layers, d.width(), d.height()));
                if j < index {
                    assert(layers[j] == old_layers[j]);
                } else {
                    assert(layers[j] == old_layers[j + 1]);
                }
            }
            layers_replaced(d, layers, doc.current_layer);
            self.settled_is_wf(before.saved(), doc);
        }
        true
    }

    /// Makes every pixel of layer `index` of the frame being edited
    /// transparent, after a checkpoint. Refused where there is no such
    /// layer.
    pub fn clear_layer(&mut self, index: usize) -> (done: bool)
        requires
            old(self).wf(),
        ensures
            final(self).wf(),
            done == (index < old(self)@.doc.layers().len()),
            done ==> final(self)@ == old(self)@.saved().with_new_doc(
                old(self)@.doc.layer_set(
                    index as int,
                    old(self)@.doc.layers()[index as int].with_pixels(
                        filled(
                            old(self)@.doc.width(),
                            old(self)@.doc.height(),
                            Color::spec_transparent(),
                        ),
                    ),
                ),
            ),
            !done ==> final(self)@ == old(self)@,
    {
        let ghost before = self@;
        let width = self.canvas_width();
        let height = self.canvas_height();
        proof {
            self.current_frame_facts();
        }
        let cf = self.current_frame;
        if index >= self.frames[cf].layers.len() {
            return false;
        }
        self.push_undo();
        let ghost mid = *self;
        self.frames[cf].layers[index].grid = new_grid(width, height, Color::transparent());
        proof {
            let d = before.doc;
            let old_layers = d.frames[d.current_frame];
            let blank = filled(d.width(), d.height(), Color::spec_transparent());
            let layers = old_layers.update(index as int, old_layers[index as int].with_pixels(blank));
            let doc = d.with_layers(layers, d.current_layer);
            assert(mid.frames[cf as int]@ == frames_view(mid.frames)[cf as int]);
            assert forall|j: int| 0 <= j < old_layers.len() implies (
            #[trigger] mid.frames[cf as int].layers[j])@ == old_layers[j] by {
                assert(mid.frames[cf as int]@[j] == old_layers[j]);
            }
            assert(self.frames[cf as int]@ =~= layers);
            assert(self@.doc.frames =~= doc.frames);
            assert(self@.doc == doc);
        }
        self.settle();
        proof {
            let d = before.doc;
            let old_layers = d.frames[d.current_frame];
            let blank = filled(d.width(), d.height(), Color::spec_transparent());
            let layers = old_layers.update(index as int, old_layers[index as int].with_pixels(blank));
            let doc = d.with_layers(layers, d.current_layer);
            assert forall|j: int| 0 <= j < layers.len() implies has_size(
                (#[trigger] layers[j]).pixels,
                d.width(),
                d.height(),
            ) by {
                assert(frame_has_size(old_layers, d.width(), d.height()));
                if j != index {
                    assert(layers[j] == old_layers[j]);
                }
            }
            layers_replaced(d, layers, doc.current_layer);
            self.settled_is_wf(before.saved(), doc);
        }
        true
    }

    /// Adds a copy of layer `index` of the frame being edited above it,
    /// named after it with " Copy" appended, after a checkpoint, and moves
    /// the cursor to the copy. Refused where there is no such layer or the
    /// frame has as many layers as the canvas size allows.
    pub fn duplicate_layer(&mut self, index: usize) -> (done: bool)
        requires
            old(self).wf(),
        ensures
            final(self).wf(),
            done == (index < old(self)@.doc.layers().len() && old(self)@.doc.layers().len() < old(self)@.doc.limit()),
            done ==> final(self)@ == old(self)@.saved().with_new_doc(
                old(self)@.doc.layer_duplicated(index as int),
            ),
            !done ==> final(self)@ == old(self)@,
    {
        let ghost before = self@;
        let width = self.canvas_width();
        let height = self.canvas_height();
        proof {
            self.current_frame_facts();
        }
        let cf = self.current_frame;
        let count = self.frames[cf].layers.len();
        if index >= count || count >= get_max_layers_for_size(width, height) {
            return false;
        }
        self.push_undo();
        let ghost mid = *self;
        let mut copy = self.frames[cf].layers[index].duplicate();
        copy.name.append(" Copy");
        self.frames[cf].layers.insert(index + 1, copy);
        self.current_layer = index + 1;
        let ghost d = before.doc;
        let ghost old_layers = d.frames[d.current_frame];
        let ghost layers = old_layers.insert(index + 1, copy_named(old_layers[index as int]));
        let ghost doc = d.with_layers(layers, index + 1);
        proof {
            assert(mid.frames[cf as int]@ == frames_view(mid.frames)[cf as int]);
            assert forall|j: int| 0 <= j < old_layers.len() implies (
            #[trigger] mid.frames[cf as int].layers[j])@ == old_layers[j] by {
                assert(mid.frames[cf as int]@[j] == old_layers[j]);
            }
            assert(copy@ == copy_named(old_layers[index as int]));
            assert(self.frames[cf as int]@ =~= layers);
            assert(self@.doc.frames =~= doc.frames);
            assert(self@.doc == doc);
        }
        self.settle();
        proof {
            assert forall|j: int| 0 <= j < layers.len() implies has_size(
                (#[trigger] layers[j]).pixels,
                d.width(),
                d.height(),
            ) by {
                if j <= index {
                    assert(layers[j] == old_layers[j]);
                } else if j > index + 1 {
                    assert(layers[j] == old_layers[j - 1]);
                } else {
                    assert(has_size(old_layers[index as int].pixels, d.width(), d.height()));
                }
            }
            layers_replaced(d, layers, index + 1);
            self.settled_is_wf(before.saved(), doc);
        }
        true
    }

    /// Moves the layer being edited one place up in its frame, after a
    /// checkpoint; the cursor follows it. Refused where it is the topmost.
    pub fn move_layer_up(&mut self) -> (done: bool)
        requires
            old(self).wf(),
        ensures
            final(self).wf(),
            done == (old(self)@.doc.current_layer + 1 < old(self)@.doc.layers().len()),
            done ==> final(self)@ == old(self)@.saved().with_new_doc(
                old(self)@.doc.layers_exchanged(
                    old(self)@.doc.current_layer,
                    old(self)@.doc.current_layer + 1,
                ),
            ),
            !done ==> final(self)@ == old(self)@,
    {
        proof {
            self.current_frame_facts();
        }
        let cf = self.current_frame;
        let cl = self.current_layer;
        if cl + 1 >= self.frames[cf].layers.len() {
            return false;
        }
        self.exchange_layers(cl, cl + 1);
        true
    }

    /// Moves the layer being edited one place down in its frame, after a
    /// checkpoint; the cursor follows it. Refused where it is the lowest.
    pub fn move_layer_down(&mut self) -> (done: bool)
        requires
            old(self).wf(),
        ensures
            final(self).wf(),
            done == (old(self)@.doc.current_layer > 0),
            done ==> final(self)@ == old(self)@.saved().with_new_doc(
                old(self)@.doc.layers_exchanged(
                    old(self)@.doc.current_layer - 1,
                    old(self)@.doc.current_layer - 1,
                ),
            ),
            !done ==> final(self)@ == old(self)@,
    {
        proof {
            self.current_frame_facts();
        }
        let cl = self.current_layer;
        if cl == 0 {
            return false;
        }
        self.exchange_layers(cl - 1, cl - 1);
        true
    }

    /// Exchanges the layers `lower` and `lower + 1` of the frame being
    /// edited, after a checkpoint, and puts the cursor on `cursor`.
    fn exchange_layers(&mut self, lower: usize, cursor: usize)
        requires
            old(self).wf(),
            lower + 1 < old(self)@.doc.layers().len(),
            cursor == lower || cursor == lower + 1,
        ensures
            final(self).wf(),
            final(self)@ == old(self)@.saved().with_new_doc(
                old(self)@.doc.layers_exchanged(lower as int, cursor as int),
            ),
    {
        let ghost before = self@;
        proof {
            self.current_frame_facts();
        }
        let cf = self.current_frame;
        self.push_undo();
        let ghost mid = *self;
        let layer = self.frames[cf].layers.remove(lower);
        self.frames[cf].layers.insert(lower + 1, layer);
        self.current_layer = cursor;
        let ghost d = before.doc;
        let ghost old_layers = d.frames[d.current_frame];
        let ghost layers = exchanged(old_layers, lower as int);
        let ghost doc = d.with_layers(layers, cursor as int);
        proof {
            assert(mid.frames[cf as int]@ == frames_view(mid.frames)[cf as int]);
            assert forall|j: int| 0 <= j < old_layers.len() implies (
            #[trigger] mid.frames[cf as int].layers[j])@ == old_layers[j] by {
                assert(mid.frames[cf as int]@[j] == old_layers[j]);
            }
            assert(self.frames[cf as int]@ =~= layers);
            assert(self@.doc.frames =~= doc.frames);
            assert(self@.doc == doc);
        }
        self.settle();
        proof {
            assert forall|j: int| 0 <= j < layers.len() implies has_size(
                (#[trigger] layers[j]).pixels,
                d.width(),
                d.height(),
            ) by {
                if j == lower {
                    assert(layers[j] == old_layers[lower + 1]);
                } else if j == lower + 1 {
                    assert(layers[j] == old_layers[lower as int]);
                } else {
                    assert(layers[j] == old_layers[j]);
                }
            }
            layers_replaced(d, layers, cursor as int);
            self.settled_is_wf(before.saved(), doc);
        }
    }

    /// Shows or hides layer `index` of the frame being edited. Refused
    /// where there is no such layer.
    pub fn set_layer_visible(&mut self, index: usize, visible: bool) -> (done: bool)
        requires
            old(self).wf(),
        ensures
            final(self).wf(),
            done == (index < old(self)@.doc.layers().len()),
            done ==> final(self)@ == old(self)@.with_new_doc(
                old(self)@.doc.layer_set(
                    index as int,
                    LayerView { visible, ..old(self)@.doc.layers()[index as int] },
                ),
            ),
            !done ==> final(self)@ == old(self)@,
    {
        let ghost before = self@;
        proof {
            self.current_frame_facts();
        }
        let cf = self.current_frame;
        if index >= self.frames[cf].layers.len() {
            return false;
        }
        self.frames[cf].layers[index].visible = visible;
        let ghost d = before.doc;
        let ghost old_layers = d.frames[d.current_frame];
        let ghost layers = old_layers.update(
            index as int,
            LayerView { visible, ..old_layers[index as int] },
        );
        let ghost doc = d.with_layers(layers, d.current_layer);
        proof {
            assert(self.frames[cf as int]@ =~= layers);
            assert(self@.doc.frames =~= doc.frames);
            assert(self@.doc == doc);
        }
        self.settle();
        proof {
            assert forall|j: int| 0 <= j < layers.len() implies has_size(
                (#[trigger] layers[j]).pixels,
                d.width(),
                d.height(),
            ) by {
                assert(has_size(old_layers[j].pixels, d.width(), d.height()));
            }
            layers_replaced(d, layers, d.current_layer);
            self.settled_is_wf(before, doc);
        }
        true
    }

    /// Sets the opacity, in units of 1/255, of layer `index` of the frame
    /// being edited. Refused where there is no such layer.
    pub fn set_layer_opacity(&mut self, index: usize, opacity: u8) -> (done: bool)
        requires
            old(self).wf(),
        ensures
            final(self).wf(),
            done == (index < old(self)@.doc.layers().len()),
            done ==> final(self)@ == old(self)@.with_new_doc(
                old(self)@.doc.layer_set(
                    index as int,
                    LayerView { opacity, ..old(self)@.doc.layers()[index as int] },
                ),
            ),
            !done ==> final(self)@ == old(self)@,
    {
        let ghost before = self@;
        proof {
            self.current_frame_facts();
        }
        let cf = self.current_frame;
        if index >= self.frames[cf].layers.len() {
            return false;
        }
        self.frames[cf].layers[index].opacity = opacity;
        let ghost d = before.doc;
        let ghost old_layers = d.frames[d.current_frame];
        let ghost layers = old_layers.update(
            index as int,
            LayerView { opacity, ..old_layers[index as int] },
        );
        let ghost doc = d.with_layers(layers, d.current_layer);
        proof {
            assert(self.frames[cf as int]@ =~= layers);
            assert(self@.doc.frames =~= doc.frames);
            assert(self@.doc == doc);
        }
        self.settle();
        proof {
            assert forall|j: int| 0 <= j < layers.len() implies has_size(
                (#[trigger] layers[j]).pixels,
                d.width(),
                d.height(),
            ) by {
                assert(has_size(old_layers[j].pixels, d.width(), d.height()));
            }
            layers_replaced(d, layers, d.current_layer);
            self.settled_is_wf(before, doc);
        }
        true
    }

    /// Adds a copy of the frame being edited after it, after a checkpoint,
    /// and moves the cursor to the copy's first layer. Refused where the
    /// document has as many frames as the canvas size allows.
    pub fn add_frame(&mut self) -> (done: bool)
        requires
            old(self).wf(),
        ensures
            final(self).wf(),
            done == (old(self)@.doc.frames.len() < old(self)@.doc.limit()),
            done ==> final(self)@ == old(self)@.saved().with_new_doc(
                old(self)@.doc.frame_duplicated(old(self)@.doc.current_frame),
            ),
            !done ==> final(self)@ == old(self)@,
    {
        let cf = self.current_frame;
        self.duplicate_frame(cf)
    }

    /// Adds a copy of frame `index` after it, after a checkpoint, and
    /// moves the cursor to the copy's first layer. Refused where there is
    /// no such frame or the document has as many frames as the canvas size
    /// allows.
    pub fn duplicate_frame(&mut self, index: usize) -> (done: bool)
        requires
            old(self).wf(),
        ensures
            final(self).wf(),
            done == (index < old(self)@.doc.frames.len() && old(self)@.doc.frames.len() < old(self)@.doc.limit()),
            done ==> final(self)@ == old(self)@.saved().with_new_doc(
                old(self)@.doc.frame_duplicated(index as int),
            ),
            !done ==> final(self)@ == old(self)@,
    {
        let ghost before = self@;
        let width = self.canvas_width();
        let height = self.canvas_height();
        let count = self.frames.len();
        if index >= count || count >= get_max_frames_for_size(width, height) {
            return false;
        }
        self.push_undo();
        let ghost mid = *self;
        let copy = self.frames[index].duplicate();
        self.frames.insert(index + 1, copy);
        self.current_frame = index + 1;
        self.current_layer = 0;
        let ghost d = before.doc;
        let ghost frames = d.frames.insert(index + 1, d.frames[index as int]);
        let ghost doc = d.rebuilt(frames, index + 1, 0);
        proof {
            assert forall|i: int| 0 <= i < d.frames.len() implies (#[trigger] mid.frames[i])@
                == d.frames[i] by {
                assert(frames_view(mid.frames)[i] == d.frames[i]);
            }
            assert(self@.doc.frames =~= frames);
            assert(self@.doc == doc);
        }
        self.settle();
        proof {
            assert forall|i: int| 0 <= i < frames.len() implies frame_has_size(
                #[trigger] frames[i],
                d.width(),
                d.height(),
            ) by {
                if i <= index {
                    assert(frames[i] == d.frames[i]);
                    assert(frame_has_size(d.frames[i], d.width(), d.height()));
                } else {
                    assert(frames[i] == d.frames[i - 1]);
                    assert(frame_has_size(d.frames[i - 1], d.width(), d.height()));
                }
            }
            sized_frames_make_document(frames, d.width(), d.height(), index + 1, 0);
            self.settled_is_wf(before.saved(), doc);
        }
        true
    }

    /// Removes frame `index`, after a checkpoint; a cursor beyond the last
    /// frame moves back onto it, and onto the first layer of its frame.
    /// Refused where there is no such frame or it is the document's only
    /// one.
    pub fn remove_frame(&mut self, index: usize) -> (done: bool)
        requires
            old(self).wf(),
        ensures
            final(self).wf(),
            done == (index < old(self)@.doc.frames.len() && old(self)@.doc.frames.len() > 1),
            done ==> final(self)@ == old(self)@.saved().with_new_doc(
                old(self)@.doc.frame_removed(index as int),
            ),
            !done ==> final(self)@ == old(self)@,
    {
        let ghost before = self@;
        let count = self.frames.len();
        if index >= count || count <= 1 {
            return false;
        }
        self.push_undo();
        let ghost mid = *self;
        self.frames.remove(index);
        if self.current_frame >= count - 1 {
            self.current_frame = count - 2;
        }
        self.current_layer = 0;
        let ghost d = before.doc;
        let ghost frames = d.frames.remove(index as int);
        let ghost doc = d.rebuilt(frames, self.current_frame as int, 0);
        proof {
            assert forall|i: int| 0 <= i < d.frames.len() implies (#[trigger] mid.frames[i])@
                == d.frames[i] by {
                assert(frames_view(mid.frames)[i] == d.frames[i]);
            }
            assert(self@.doc.frames =~= frames);
            assert(self@.doc == doc);
        }
        self.settle();
        proof {
            assert forall|i: int| 0 <= i < frames.len() implies frame_has_size(
                #[trigger] frames[i],
                d.width(),
                d.height(),
            ) by {
                if i < index {
                    assert(frames[i] == d.frames[i]);
                    assert(frame_has_size(d.frames[i], d.width(), d.height()));
                } else {
                    assert(frames[i] == d.frames[i + 1]);
                    assert(frame_has_size(d.frames[i + 1], d.width(), d.height()));
                }
            }
            sized_frames_make_document(frames, d.width(), d.height(), doc.current_frame, 0);
            self.settled_is_wf(before.saved(), doc);
        }
        true
    }
}

/// Whether a grid has `height` rows of `width` pixels.
pub fn grid_has_size(grid: &Vec<Vec<Color>>, width: usize, height: usize) -> (ok: bool)
    ensures
        ok == has_size(pixels(*grid), width as nat, height as nat),
{
    if grid.len() != height {
        return false;
    }
    let mut y: usize = 0;
    while y < height
        invariant
            y <= height,
            height == grid.len(),
            forall|j: int| 0 <= j < y ==> (#[trigger] pixels(*grid)[j]).len() == width,
        decreases height - y,
    {
        if grid[y].len() != width {
            assert(pixels(*grid)[y as int].len() != width);
            return false;
        }
        y += 1;
    }
    true
}

/// Whether every layer of every frame has `height` rows of `width`
/// pixels, and every frame has a layer.
pub fn frames_fit(frames: &Vec<Frame>, width: usize, height: usize) -> (ok: bool)
    ensures
        ok == frames_have_size(frames_view(*frames), width as nat, height as nat),
{
    let ghost fv = frames_view(*frames);
    let mut i: usize = 0;
    while i < frames.len()
        invariant
            i <= frames.len(),
            fv == frames_view(*frames),
            forall|k: int| 0 <= k < i ==> frame_has_size(
                #[trigger] fv[k],
                width as nat,
                height as nat,
            ),
        decreases frames.len() - i,
    {
        let frame = &frames[i];
        assert(frame@ == fv[i as int]);
        if frame.layers.len() == 0 {
            assert(!frame_has_size(fv[i as int], width as nat, height as nat));
            return false;
        }
        let mut j: usize = 0;
        while j < frame.layers.len()
            invariant
                j <= frame.layers.len(),
                i < frames.len(),
                fv == frames_view(*frames),
                frame@ == fv[i as int],
                frame.layers.len() > 0,
                forall|k: int| 0 <= k < j ==> has_size(
                    (#[trigger] frame@[k]).pixels,
                    width as nat,
                    height as nat,
                ),
            decreases frame.layers.len() - j,
        {
            if !grid_has_size(&frame.layers[j].grid, width, height) {
                assert(!has_size(frame@[j as int].pixels, width as nat, height as nat));
                assert(!frame_has_size(fv[i as int], width as nat, height as nat));
                return false;
            }
            j += 1;
        }
        i += 1;
    }
    true
}

/// Whether a list of frames can be a document: it has a frame, every
/// frame has a layer, and all layers have the size of the first, which has
/// pixels and no more of them than a `usize` can count.
pub fn frames_make_document(frames: &Vec<Frame>) -> (ok: bool)
    ensures
        ok == (DocView { frames: frames_view(*frames), current_frame: 0, current_layer: 0 }).wf(),
{
    let ghost fv = frames_view(*frames);
    let ghost d = DocView { frames: fv, current_frame: 0, current_layer: 0 };
    if frames.len() == 0 {
        return false;
    }
    assert(frames[0]@ == fv[0]);
    if frames[0].layers.len() == 0 {
        assert(!frame_has_size(fv[0], d.width(), d.height()));
        return false;
    }
    let width = frames[0].layers[0].width();
    let height = frames[0].layers[0].height();
    if width == 0 || height == 0 {
        return false;
    }
    match width.checked_mul(height) {
        Some(_) => {},
        None => {
            return false;
        },
    }
    let ok = frames_fit(frames, width, height);
    proof {
        if ok {
            assert(frame_has_size(fv[0], width as nat, height as nat));
        }
    }
    ok
}

impl PixelArtEditor {
    /// Starts the animation at the first frame, or stops it. The image on
    /// display changes with it, so the cache is marked dirty.
    pub fn toggle_animation(&mut self)
        requires
            old(self).wf(),
        ensures
            final(self).wf(),
            final(self)@ == (EditorView {
                animation_playing: !old(self)@.animation_playing,
                animation_frame: if old(self)@.animation_playing {
                    old(self)@.animation_frame
                } else {
                    0
                },
                cache_dirty: true,
                ..old(self)@
            }),
    {
        self.animation_playing = !self.animation_playing;
        if self.animation_playing {
            self.animation_frame = 0;
        }
        self.cache_dirty = true;
    }

    /// Moves a playing animation of more than one frame on to its next
    /// frame, and from the last to the first.
    pub fn advance_animation(&mut self)
        requires
            old(self).wf(),
        ensures
            final(self).wf(),
            final(self)@ == if old(self)@.animation_playing && old(self)@.doc.frames.len() > 1 {
                EditorView {
                    animation_frame: ((old(self)@.animation_frame + 1) % (old(self)@.doc.frames.len() as int)) as usize,
                    cache_dirty: true,
                    ..old(self)@
                }
            } else {
                old(self)@
            },
    {
        if self.animation_playing && self.frames.len() > 1 {
            self.animation_frame = (self.animation_frame + 1) % self.frames.len();
            self.cache_dirty = true;
        }
    }

    /// Sets how neighbouring frames are shown beneath the current one.
    pub fn set_onion_skin(&mut self, onion: crate::compositor::OnionSkin)
        requires
            old(self).wf(),
        ensures
            final(self).wf(),
            final(self)@ == (EditorView {
                onion_skinning: onion.enabled,
                onion_prev_frames: onion.prev_frames,
                onion_next_frames: onion.next_frames,
                onion_opacity: onion.opacity,
                cache_dirty: true,
                ..old(self)@
            }),
    {
        self.onion_skinning = onion.enabled;
        self.onion_prev_frames = onion.prev_frames;
        self.onion_next_frames = onion.next_frames;
        self.onion_opacity = onion.opacity;
        self.cache_dirty = true;
    }

    /// Replaces the document by the given frames, with the cursor on the
    /// first layer of the first frame. The history is kept as it is.
    /// Refused where the frames cannot be a document.
    pub fn load_frames(&mut self, frames: Vec<Frame>) -> (done: bool)
        requires
            old(self).wf(),
        ensures
            final(self).wf(),
            done == (DocView { frames: frames_view(frames), current_frame: 0, current_layer: 0 }).wf(),
            done ==> final(self)@ == old(self)@.with_new_doc(
                DocView { frames: frames_view(frames), current_frame: 0, current_layer: 0 },
            ),
            !done ==> final(self)@ == old(self)@,
    {
        if !frames_make_document(&frames) {
            return false;
        }
        self.frames = frames;
        self.current_frame = 0;
        self.current_layer = 0;
        self.settle();
        true
    }

    /// Gives layer `index` of the frame being edited another name.
    /// Refused where there is no such layer.
    pub fn rename_layer(&mut self, index: usize, name: String) -> (done: bool)
        requires
            old(self).wf(),
        ensures
            final(self).wf(),
            done == (index < old(self)@.doc.layers().len()),
            done ==> final(self)@ == (EditorView {
                doc: old(self)@.doc.layer_set(
                    index as int,
                    LayerView { name: name@, ..old(self)@.doc.layers()[index as int] },
                ),
                ..old(self)@
            }),
            !done ==> final(self)@ == old(self)@,
    {
        let ghost before = self@;
        proof {
            self.current_frame_facts();
        }
        let cf = self.current_frame;
        if index >= self.frames[cf].layers.len() {
            return false;
        }
        self.frames[cf].layers[index].name = name;
        proof {
            let d = before.doc;
            let old_layers = d.frames[d.current_frame];
            let layers = old_layers.update(
                index as int,
                LayerView { name: name@, ..old_layers[index as int] },
            );
            let doc = d.with_layers(layers, d.current_layer);
            assert(self.frames[cf as int]@ =~= layers);
            assert(self@.doc.frames =~= doc.frames);
            assert forall|j: int| 0 <= j < layers.len() implies has_size(
                (#[trigger] layers[j]).pixels,
                d.width(),
                d.height(),
            ) by {
                assert(has_size(old_layers[j].pixels, d.width(), d.height()));
            }
            layers_replaced(d, layers, d.current_layer);
            renamed_shows_the_same(before, index as int, name@);
        }
        true
    }
}

/// A layer's name does not show: the image on display is the same under
/// any name.
pub proof fn renamed_shows_the_same(v: EditorView, index: int, name: Seq<char>)
    requires
        v.wf(),
        0 <= index < v.doc.frames[v.doc.current_frame].len(),
    ensures
        ({
            let layers = v.doc.frames[v.doc.current_frame];
            let doc = v.doc.with_layers(
                layers.update(index, LayerView { name, ..layers[index] }),
                v.doc.current_layer,
            );
            (EditorView { doc, ..v }).composed() == v.composed()
        }),
{
    let layers = v.doc.frames[v.doc.current_frame];
    let doc = v.doc.with_layers(
        layers.update(index, LayerView { name, ..layers[index] }),
        v.doc.current_layer,
    );
    assert(frame_has_size(v.doc.frames[v.shown_frame()], v.doc.width(), v.doc.height()));
    assert(crate::compositor::same_but_names(v.doc.frames, doc.frames));
    crate::compositor::composite_ignores_names(
        v.doc.frames,
        doc.frames,
        v.shown_frame(),
        v.onion(),
    );
}

/// A copy of a layer, named after it with " Copy" appended.
pub open spec fn copy_named(l: LayerView) -> LayerView {
    LayerView { name: l.name + " Copy"@, ..l }
}

/// A list of layers with the layers `lower` and `lower + 1` exchanged.
pub open spec fn exchanged(layers: FrameView, lower: int) -> FrameView {
    layers.update(lower, layers[lower + 1]).update(lower + 1, layers[lower])
}

/// A well-formed document stays well formed, at its size, when the frame
/// being edited gets another list of layers of that size.
pub proof fn layers_replaced(d: DocView, layers: FrameView, current_layer: int)
    requires
        d.wf(),
        0 <= current_layer < layers.len(),
        forall|j: int|
            0 <= j < layers.len() ==> has_size((#[trigger] layers[j]).pixels, d.width(), d.height()),
    ensures
        d.with_layers(layers, current_layer).wf(),
        d.with_layers(layers, current_layer).width() == d.width(),
        d.with_layers(layers, current_layer).height() == d.height(),
{
    let doc = d.with_layers(layers, current_layer);
    assert forall|i: int| 0 <= i < doc.frames.len() implies frame_has_size(
        #[trigger] doc.frames[i],
        d.width(),
        d.height(),
    ) by {
        if i != d.current_frame {
            assert(frame_has_size(d.frames[i], d.width(), d.height()));
        }
    }
    sized_frames_make_document(doc.frames, d.width(), d.height(), doc.current_frame, current_layer);
}

} // verus!
