//! The editor: a document of frames with a cursor, its undo history, the
//! tool settings, and the cache of the composited image.

use vstd::prelude::*;
use crate::color::Color;
use crate::grid::{Pixels, pixels, has_size, filled, copy_grid};
use crate::layer::{Layer, LayerView, Frame, FrameView, frame_has_size, frames_view, copy_frames};
use crate::compositor::{OnionSkin, composite, compose, frames_have_size};
use crate::history::{Timeline, HISTORY_CAP};
use crate::paint::Symmetry;
use crate::tools::{Tool, tool_name_of, tool_icon_of, tool_letter_of, nfc_of, grapheme_count_of,
    shown_icon};

verus! {

/// The model of a document: its frames and which frame and layer are
/// being edited.
pub struct DocView {
    pub frames: Seq<FrameView>,
    pub current_frame: int,
    pub current_layer: int,
}

impl DocView {
    /// The width of the canvas.
    pub open spec fn width(self) -> nat {
        self.frames[0][0].width()
    }

    /// The height of the canvas.
    pub open spec fn height(self) -> nat {
        self.frames[0][0].height()
    }

    /// The document's invariant: it has a frame, every frame has a layer,
    /// all layers have the size of the canvas, which has pixels and no
    /// more of them than a `usize` can count, and the cursor names a layer
    /// of a frame.
    pub open spec fn wf(self) -> bool {
        &&& self.frames.len() > 0
        &&& frames_have_size(self.frames, self.width(), self.height())
        &&& self.width() > 0
        &&& self.height() > 0
        &&& self.width() * self.height() <= usize::MAX
        &&& 0 <= self.current_frame < self.frames.len()
        &&& 0 <= self.current_layer < self.frames[self.current_frame].len()
    }

    /// The layer being edited.
    pub open spec fn active(self) -> LayerView {
        self.frames[self.current_frame][self.current_layer]
    }

    /// The document with another layer in place of the one being edited.
    pub open spec fn with_active(self, layer: LayerView) -> DocView {
        DocView {
            frames: self.frames.update(
                self.current_frame,
                self.frames[self.current_frame].update(self.current_layer, layer),
            ),
            current_frame: self.current_frame,
            current_layer: self.current_layer,
        }
    }

    /// The document with other pixels in the layer being edited.
    pub open spec fn with_active_pixels(self, p: Pixels) -> DocView {
        self.with_active(self.active().with_pixels(p))
    }
}

/// Frames of one size, which has pixels that a `usize` can count, with a
/// cursor on one of their layers, make a well-formed document of that
/// size.
pub proof fn sized_frames_make_document(
    frames: Seq<FrameView>,
    w: nat,
    h: nat,
    current_frame: int,
    current_layer: int,
)
    requires
        frames.len() > 0,
        frames_have_size(frames, w, h),
        w > 0,
        h > 0,
        w * h <= usize::MAX,
        0 <= current_frame < frames.len(),
        0 <= current_layer < frames[current_frame].len(),
    ensures
        (DocView { frames, current_frame, current_layer }).wf(),
        (DocView { frames, current_frame, current_layer }).width() == w,
        (DocView { frames, current_frame, current_layer }).height() == h,
{
    assert(frame_has_size(frames[0], w, h));
    assert(has_size(frames[0][0].pixels, w, h));
    crate::grid::sized_is_rectangular(frames[0][0].pixels, w, h);
}

/// The model of a saved document.
pub open spec fn snapshot_view(s: (Vec<Frame>, usize, usize)) -> DocView {
    DocView { frames: frames_view(s.0), current_frame: s.1 as int, current_layer: s.2 as int }
}

/// The model of a stack of saved documents, the top last.
pub open spec fn stack_view(stack: Vec<(Vec<Frame>, usize, usize)>) -> Seq<DocView> {
    Seq::new(stack.len() as nat, |i: int| snapshot_view(stack[i]))
}

/// The editor's state.
pub struct PixelArtEditor {
    pub frames: Vec<Frame>,
    pub current_frame: usize,
    pub current_layer: usize,
    pub selected_color: Color,
    pub secondary_color: Color,
    pub tool: Tool,
    pub undo_stack: Vec<(Vec<Frame>, usize, usize)>,
    pub redo_stack: Vec<(Vec<Frame>, usize, usize)>,
    /// The diameter of the brush in pixels.
    pub brush_size: usize,
    /// The radius of the spray in pixels.
    pub spray_size: usize,
    /// How likely a sprayed dot is to land, in units of 1/255.
    pub spray_intensity: u8,
    pub fill_shape: bool,
    pub symmetry_mode: bool,
    /// Mirroring left to right, and top to bottom.
    pub symmetry_axis: (bool, bool),
    pub animation_playing: bool,
    pub animation_frame: usize,
    pub onion_skinning: bool,
    pub onion_prev_frames: usize,
    pub onion_next_frames: usize,
    /// The opacity of the nearest onion skin, in units of 1/255.
    pub onion_opacity: u8,
    pub render_cache: Option<Vec<Vec<Color>>>,
    pub cache_dirty: bool,
}

/// The model of the editor.
pub struct EditorView {
    pub doc: DocView,
    pub undo: Seq<DocView>,
    pub redo: Seq<DocView>,
    pub selected_color: Color,
    pub secondary_color: Color,
    pub tool: Tool,
    pub brush_size: usize,
    pub spray_size: usize,
    pub spray_intensity: u8,
    pub fill_shape: bool,
    pub symmetry_mode: bool,
    pub symmetry_axis: (bool, bool),
    pub animation_playing: bool,
    pub animation_frame: usize,
    pub onion_skinning: bool,
    pub onion_prev_frames: usize,
    pub onion_next_frames: usize,
    pub onion_opacity: u8,
    pub cache: Option<Pixels>,
    pub cache_dirty: bool,
}

impl EditorView {
    /// The document and what can be undone and redone.
    pub open spec fn history(self) -> Timeline<DocView> {
        Timeline { doc: self.doc, undo: self.undo, redo: self.redo }
    }

    /// The frame on display: the frame being played, or else the frame
    /// being edited.
    pub open spec fn shown_frame(self) -> int {
        if self.animation_playing {
            self.animation_frame as int
        } else {
            self.doc.current_frame
        }
    }

    /// The onion skin on display: none while the animation plays.
    pub open spec fn onion(self) -> OnionSkin {
        OnionSkin {
            enabled: self.onion_skinning && !self.animation_playing,
            prev_frames: self.onion_prev_frames,
            next_frames: self.onion_next_frames,
            opacity: self.onion_opacity,
        }
    }

    /// The mirroring that painting applies.
    pub open spec fn symmetry(self) -> Symmetry {
        Symmetry {
            horizontal: self.symmetry_mode && self.symmetry_axis.0,
            vertical: self.symmetry_mode && self.symmetry_axis.1,
        }
    }

    /// The image on display.
    pub open spec fn composed(self) -> Pixels {
        composite(self.doc.frames, self.shown_frame(), self.onion())
    }

    /// The editor's invariant: the document and every saved document are
    /// well formed, the history fits its cap, a frame being played exists,
    /// and a cache that is not marked dirty holds the image on display.
    pub open spec fn wf(self) -> bool {
        &&& self.doc.wf()
        &&& forall|i: int| 0 <= i < self.undo.len() ==> (#[trigger] self.undo[i]).wf()
        &&& forall|i: int| 0 <= i < self.redo.len() ==> (#[trigger] self.redo[i]).wf()
        &&& self.undo.len() + self.redo.len() <= HISTORY_CAP
        &&& self.animation_playing ==> self.animation_frame < self.doc.frames.len()
        &&& !self.cache_dirty ==> match self.cache {
            Some(c) => c == self.composed(),
            None => true,
        }
    }

    /// The state of a new editor: one frame of one transparent layer of
    /// 16 by 16 pixels named "Layer 1", black and white in hand, the
    /// pencil as the tool with a brush of one pixel, a spray of radius 3 at
    /// about half intensity, no symmetry, no animation, onion skinning off
    /// but set to one frame either way at about a third of the opacity,
    /// an empty history and no cached image.
    pub open spec fn initial() -> EditorView {
        EditorView {
            doc: DocView {
                frames: seq![
                    seq![
                        LayerView {
                            name: "Layer 1"@,
                            visible: true,
                            opacity: 255,
                            pixels: filled(16, 16, Color::spec_transparent()),
                        },
                    ],
                ],
                current_frame: 0,
                current_layer: 0,
            },
            undo: Seq::empty(),
            redo: Seq::empty(),
            selected_color: Color { r: 0, g: 0, b: 0, a: 255 },
            secondary_color: Color { r: 255, g: 255, b: 255, a: 255 },
            tool: Tool::Pencil,
            brush_size: 1,
            spray_size: 3,
            spray_intensity: 128,
            fill_shape: false,
            symmetry_mode: false,
            symmetry_axis: (false, false),
            animation_playing: false,
            animation_frame: 0,
            onion_skinning: false,
            onion_prev_frames: 1,
            onion_next_frames: 1,
            onion_opacity: 77,
            cache: None,
            cache_dirty: true,
        }
    }

    /// This state with another document and the cache marked dirty.
    pub open spec fn with_doc(self, doc: DocView) -> EditorView {
        EditorView { doc, cache_dirty: true, ..self }
    }

    /// This state with other pixels in the layer being edited, and the
    /// cache marked dirty.
    pub open spec fn with_pixels(self, p: Pixels) -> EditorView {
        self.with_doc(self.doc.with_active_pixels(p))
    }

    /// This state after a checkpoint: the document is saved, nothing else
    /// changes.
    pub open spec fn saved(self) -> EditorView {
        EditorView {
            undo: self.history().checkpointed().undo,
            redo: self.history().checkpointed().redo,
            ..self
        }
    }

    /// This state after a step through the history that led to `h`: the
    /// document and the stacks are those of `h`, the cache is marked dirty,
    /// and the frame being played is the first where the old one is gone.
    pub open spec fn travelled(self, h: Timeline<DocView>) -> EditorView {
        EditorView {
            doc: h.doc,
            undo: h.undo,
            redo: h.redo,
            cache_dirty: true,
            animation_frame: if self.animation_frame < h.doc.frames.len() {
                self.animation_frame
            } else {
                0
            },
            ..self
        }
    }

    /// This state after an undo.
    pub open spec fn undone(self) -> EditorView {
        if self.undo.len() == 0 {
            self
        } else {
            self.travelled(self.history().undone())
        }
    }

    /// This state after a redo.
    pub open spec fn redone(self) -> EditorView {
        if self.redo.len() == 0 {
            self
        } else {
            self.travelled(self.history().redone())
        }
    }
}

/// The steps of the editor are the steps of its history: a checkpoint, a
/// change of the document, an undo and a redo do to the document and the
/// two stacks what the model of the history says.
pub proof fn editor_follows_history(v: EditorView, doc: DocView)
    ensures
        v.saved().history() == v.history().checkpointed(),
        v.with_doc(doc).history() == v.history().replaced(doc),
        v.undone().history() == v.history().undone(),
        v.redone().history() == v.history().redone(),
{
}

impl View for PixelArtEditor {
    type V = EditorView;

    open spec fn view(&self) -> EditorView {
        EditorView {
            doc: DocView {
                frames: frames_view(self.frames),
                current_frame: self.current_frame as int,
                current_layer: self.current_layer as int,
            },
            undo: stack_view(self.undo_stack),
            redo: stack_view(self.redo_stack),
            selected_color: self.selected_color,
            secondary_color: self.secondary_color,
            tool: self.tool,
            brush_size: self.brush_size,
            spray_size: self.spray_size,
            spray_intensity: self.spray_intensity,
            fill_shape: self.fill_shape,
            symmetry_mode: self.symmetry_mode,
            symmetry_axis: self.symmetry_axis,
            animation_playing: self.animation_playing,
            animation_frame: self.animation_frame,
            onion_skinning: self.onion_skinning,
            onion_prev_frames: self.onion_prev_frames,
            onion_next_frames: self.onion_next_frames,
            onion_opacity: self.onion_opacity,
            cache: match self.render_cache {
                Some(c) => Some(pixels(c)),
                None => None,
            },
            cache_dirty: self.cache_dirty,
        }
    }
}

impl PixelArtEditor {
    /// The editor's invariant.
    pub open spec fn wf(&self) -> bool {
        self@.wf()
    }

    /// An editor with one frame of one transparent layer of 16 by 16
    /// pixels, black and white in hand, the pencil as the tool, and an
    /// empty history.
    pub fn new() -> (editor: PixelArtEditor)
        ensures
            editor.wf(),
            editor@ == EditorView::initial(),
    {
        let mut frames: Vec<Frame> = Vec::new();
        frames.push(Frame::default());
        let editor = PixelArtEditor {
            frames,
            current_frame: 0,
            current_layer: 0,
            selected_color: Color::black(),
            secondary_color: Color::white(),
            tool: Tool::Pencil,
            undo_stack: Vec::new(),
            redo_stack: Vec::new(),
            brush_size: 1,
            spray_size: 3,
            spray_intensity: 128,
            fill_shape: false,
            symmetry_mode: false,
            symmetry_axis: (false, false),
            animation_playing: false,
            animation_frame: 0,
            onion_skinning: false,
            onion_prev_frames: 1,
            onion_next_frames: 1,
            onion_opacity: 77,
            render_cache: None,
            cache_dirty: true,
        };
        proof {
            let d = editor@.doc;
            assert(d.frames[0] == editor.frames[0]@);
            assert(d.frames[0] =~= EditorView::initial().doc.frames[0]);
            assert(d.frames =~= EditorView::initial().doc.frames);
            assert(editor@.undo =~= Seq::<DocView>::empty());
            assert(editor@.redo =~= Seq::<DocView>::empty());
            assert(has_size(d.frames[0][0].pixels, 16, 16));
            crate::grid::sized_is_rectangular(d.frames[0][0].pixels, 16, 16);
            assert(frame_has_size(d.frames[0], d.width(), d.height()));
        }
        editor
    }

    /// The mirroring that painting applies.
    pub fn symmetry(&self) -> (sym: Symmetry)
        ensures
            sym == self@.symmetry(),
    {
        Symmetry {
            horizontal: self.symmetry_mode && self.symmetry_axis.0,
            vertical: self.symmetry_mode && self.symmetry_axis.1,
        }
    }

    /// The layer being edited.
    pub fn get_active_layer(&self) -> (layer: &Layer)
        requires
            self.wf(),
        ensures
            layer@ == self@.doc.active(),
            layer.wf(),
            has_size(layer@.pixels, self@.doc.width(), self@.doc.height()),
    {
        proof {
            self.active_layer_facts();
        }
        &self.frames[self.current_frame].layers[self.current_layer]
    }

    /// The layer being edited, for writing. The cached image is marked as
    /// out of date beforehand. Whoever writes through the reference keeps
    /// the layer's size: the editor is well formed afterwards only where
    /// the layer still has the size of the canvas.
    pub fn get_active_layer_mut(&mut self) -> (layer: &mut Layer)
        requires
            old(self).wf(),
        ensures
            layer@ == old(self)@.doc.active(),
            final(self)@ == old(self)@.with_doc(old(self)@.doc.with_active(final(layer)@)),
    {
        proof {
            self.active_layer_facts();
        }
        self.cache_dirty = true;
        let cf = self.current_frame;
        let cl = self.current_layer;
        let ghost before = *self;
        let layer = &mut self.frames[cf].layers[cl];
        proof {
            let after = after_borrow(*self);
            let d = before@.doc;
            let want = before@.with_doc(d.with_active(final(layer)@));
            assert(after@.doc.frames =~= want.doc.frames) by {
                assert forall|i: int| 0 <= i < after.frames.len() implies after@.doc.frames[i]
                    == want.doc.frames[i] by {
                    if i == cf {
                        assert(after@.doc.frames[i] =~= want.doc.frames[i]);
                    }
                }
            }
        }
        layer
    }

    /// What the invariant says of the layer being edited.
    pub proof fn active_layer_facts(&self)
        requires
            self.wf(),
        ensures
            self.current_frame < self.frames.len(),
            self.current_layer < self.frames[self.current_frame as int].layers.len(),
            self.frames[self.current_frame as int].layers[self.current_layer as int]@
                == self@.doc.active(),
            has_size(self@.doc.active().pixels, self@.doc.width(), self@.doc.height()),
            self@.doc.active().wf(),
    {
        let d = self@.doc;
        let f = d.frames[d.current_frame];
        assert(frame_has_size(f, d.width(), d.height()));
        assert(f == self.frames[self.current_frame as int]@);
        assert(has_size(f[d.current_layer].pixels, d.width(), d.height()));
        crate::grid::sized_is_rectangular(f[d.current_layer].pixels, d.width(), d.height());
    }

    /// The width of the canvas.
    pub fn width(&self) -> (w: usize)
        requires
            self.wf(),
        ensures
            w == self@.doc.active().width(),
    {
        self.get_active_layer().width()
    }

    /// The height of the canvas.
    pub fn height(&self) -> (h: usize)
        requires
            self.wf(),
        ensures
            h == self@.doc.height(),
            h == self@.doc.active().height(),
    {
        self.get_active_layer().height()
    }

    /// Marks the cached image as out of date.
    pub fn invalidate_cache(&mut self)
        ensures
            final(self)@ == (EditorView { cache_dirty: true, ..old(self)@ }),
            old(self).wf() ==> final(self).wf(),
    {
        self.cache_dirty = true;
    }

    /// Stores the image on display in the cache.
    pub fn update_cache(&mut self, composed: Vec<Vec<Color>>)
        requires
            old(self).wf(),
            pixels(composed) == old(self)@.composed(),
        ensures
            final(self)@ == (EditorView {
                cache: Some(pixels(composed)),
                cache_dirty: false,
                ..old(self)@
            }),
            final(self).wf(),
    {
        self.render_cache = Some(composed);
        self.cache_dirty = false;
    }

    /// The image on display: the cached one where the cache is up to
    /// date, else a fresh composite.
    pub fn get_composed_grid(&self) -> (composed: Vec<Vec<Color>>)
        requires
            self.wf(),
        ensures
            pixels(composed) == self@.composed(),
            has_size(pixels(composed), self@.doc.width(), self@.doc.height()),
    {
        let frame_idx = if self.animation_playing {
            self.animation_frame
        } else {
            self.current_frame
        };
        proof {
            self.shown_frame_facts();
        }
        if !self.cache_dirty {
            match &self.render_cache {
                Some(cache) => {
                    proof {
                        crate::compositor::composite_has_size(
                            self@.doc.frames,
                            self@.shown_frame(),
                            self@.onion(),
                            self@.doc.width(),
                            self@.doc.height(),
                        );
                    }
                    return copy_grid(cache);
                },
                None => {},
            }
        }
        let onion = OnionSkin {
            enabled: self.onion_skinning && !self.animation_playing,
            prev_frames: self.onion_prev_frames,
            next_frames: self.onion_next_frames,
            opacity: self.onion_opacity,
        };
        compose(&self.frames, frame_idx, onion)
    }

    /// The frame on display has the size of the canvas.
    pub proof fn shown_frame_facts(&self)
        requires
            self.wf(),
        ensures
            0 <= self@.shown_frame() < self.frames.len(),
            self@.doc.frames[self@.shown_frame()][0].width() == self@.doc.width(),
            self@.doc.frames[self@.shown_frame()][0].height() == self@.doc.height(),
    {
        let d = self@.doc;
        let s = self@.shown_frame();
        assert(frame_has_size(d.frames[s], d.width(), d.height()));
        crate::compositor::frame_size_is_wf(d.frames[s], d.width(), d.height());
    }

    /// Composes the image on display and stores it in the cache.
    pub fn refresh_cache(&mut self)
        requires
            old(self).wf(),
        ensures
            final(self)@ == (EditorView {
                cache: Some(old(self)@.composed()),
                cache_dirty: false,
                ..old(self)@
            }),
            final(self).wf(),
    {
        let composed = self.get_composed_grid();
        self.update_cache(composed);
    }

    /// Whether anything can be undone.
    pub fn can_undo(&self) -> (can: bool)
        ensures
            can == (self@.undo.len() > 0),
    {
        self.undo_stack.len() > 0
    }

    /// Whether anything can be redone.
    pub fn can_redo(&self) -> (can: bool)
        ensures
            can == (self@.redo.len() > 0),
    {
        self.redo_stack.len() > 0
    }

    /// Saves the document on the undo stack before a mutation. What could
    /// be redone is forgotten, and beyond the cap the oldest saved document
    /// is dropped.
    pub fn push_undo(&mut self)
        requires
            old(self).wf(),
        ensures
            final(self).wf(),
            final(self)@ == old(self)@.saved(),
    {
        let ghost before = self@;
        let saved = copy_frames(&self.frames);
        self.undo_stack.push((saved, self.current_frame, self.current_layer));
        self.redo_stack.clear();
        proof {
            assert(stack_view(self.undo_stack) =~= before.undo.push(before.doc));
        }
        if self.undo_stack.len() > HISTORY_CAP {
            self.undo_stack.remove(0);
        }
        proof {
            let pushed = before.undo.push(before.doc);
            assert(stack_view(self.undo_stack) =~= crate::history::recent(pushed));
            assert(stack_view(self.redo_stack) =~= Seq::<DocView>::empty());
            assert(self@ == before.saved());
            assert forall|i: int| 0 <= i < self@.undo.len() implies (#[trigger] self@.undo[i]).wf() by {
                if pushed.len() > HISTORY_CAP {
                    assert(self@.undo[i] == pushed[i + 1]);
                } else {
                    assert(self@.undo[i] == pushed[i]);
                }
                if self@.undo[i] != before.doc {
                    assert(exists|j: int| 0 <= j < before.undo.len() && before.undo[j] == self@.undo[i]);
                }
            }
        }
    }

    /// Goes back to the document saved last, keeping the current one for
    /// redo. Nothing happens where nothing is saved.
    pub fn undo(&mut self)
        requires
            old(self).wf(),
        ensures
            final(self).wf(),
            final(self)@ == old(self)@.undone(),
    {
        let ghost before = self@;
        match self.undo_stack.pop() {
            Some(saved) => {
                let (frames, cf, cl) = saved;
                proof {
                    assert(snapshot_view((frames, cf, cl)) == before.undo.last());
                    assert(stack_view(self.undo_stack) =~= before.undo.drop_last());
                    assert(before.undo.last().wf());
                }
                let mut swapped = frames;
                std::mem::swap(&mut self.frames, &mut swapped);
                self.redo_stack.push((swapped, self.current_frame, self.current_layer));
                self.current_frame = cf;
                self.current_layer = cl;
                if self.animation_frame >= self.frames.len() {
                    self.animation_frame = 0;
                }
                self.cache_dirty = true;
                proof {
                    assert(stack_view(self.redo_stack) =~= before.redo.push(before.doc));
                    assert forall|i: int| 0 <= i < self@.undo.len() implies (
                    #[trigger] self@.undo[i]).wf() by {
                        assert(self@.undo[i] == before.undo[i]);
                    }
                    assert forall|i: int| 0 <= i < self@.redo.len() implies (
                    #[trigger] self@.redo[i]).wf() by {
                        if i < before.redo.len() {
                            assert(self@.redo[i] == before.redo[i]);
                        }
                    }
                }
            },
            None => {
                proof {
                    assert(before.undo.len() == 0);
                }
            },
        }
    }

    /// Goes forward again to the document undone last, keeping the
    /// current one for undo. Nothing happens where nothing was undone.
    pub fn redo(&mut self)
        requires
            old(self).wf(),
        ensures
            final(self).wf(),
            final(self)@ == old(self)@.redone(),
    {
        let ghost before = self@;
        match self.redo_stack.pop() {
            Some(saved) => {
                let (frames, cf, cl) = saved;
                proof {
                    assert(snapshot_view((frames, cf, cl)) == before.redo.last());
                    assert(stack_view(self.redo_stack) =~= before.redo.drop_last());
                    assert(before.redo.last().wf());
                }
                let mut swapped = frames;
                std::mem::swap(&mut self.frames, &mut swapped);
                self.undo_stack.push((swapped, self.current_frame, self.current_layer));
                self.current_frame = cf;
                self.current_layer = cl;
                if self.animation_frame >= self.frames.len() {
                    self.animation_frame = 0;
                }
                self.cache_dirty = true;
                proof {
                    assert(stack_view(self.undo_stack) =~= before.undo.push(before.doc));
                    assert forall|i: int| 0 <= i < self@.redo.len() implies (
                    #[trigger] self@.redo[i]).wf() by {
                        assert(self@.redo[i] == before.redo[i]);
                    }
                    assert forall|i: int| 0 <= i < self@.undo.len() implies (
                    #[trigger] self@.undo[i]).wf() by {
                        if i < before.undo.len() {
                            assert(self@.undo[i] == before.undo[i]);
                        }
                    }
                }
            },
            None => {
                proof {
                    assert(before.redo.len() == 0);
                }
            },
        }
    }

    /// The name of a tool.
    pub fn tool_name(&self, tool: Tool) -> (name: &'static str)
        ensures
            name@ == tool_name_of(tool),
    {
        crate::tools::tool_name(tool)
    }

    /// The symbol of a tool.
    pub fn tool_icon(&self, tool: Tool) -> (icon: &'static str)
        ensures
            icon@ == tool_icon_of(tool),
    {
        crate::tools::tool_icon(tool)
    }

    /// The symbol of a tool in Normalization Form C.
    pub fn tool_icon_normalized(&self, tool: Tool) -> (icon: String)
        ensures
            icon@ == nfc_of(tool_icon_of(tool)),
    {
        crate::tools::tool_icon_normalized(tool)
    }

    /// The icon to show for a tool: its normalized symbol, or its letter
    /// where the symbol holds no grapheme cluster.
    pub fn tool_icon_safe(&self, tool: Tool) -> (icon: String)
        ensures
            icon@ == shown_icon(
                nfc_of(tool_icon_of(tool)),
                grapheme_count_of(nfc_of(tool_icon_of(tool))),
                tool_letter_of(tool),
            ),
    {
        crate::tools::tool_icon_safe(tool)
    }

    /// A copy of a grid moved by `(dx, dy)`; what moves in from outside is
    /// transparent, what moves out is lost.
    pub fn shift_layer_grid(grid: &Vec<Vec<Color>>, dx: isize, dy: isize) -> (out: Vec<Vec<Color>>)
        requires
            crate::grid::rectangular(pixels(*grid)),
        ensures
            pixels(out) == crate::resize::moved(pixels(*grid), dx as int, dy as int),
            has_size(
                pixels(out),
                crate::grid::width_of(pixels(*grid)),
                pixels(*grid).len(),
            ),
    {
        crate::resize::shift_layer_grid(grid, dx, dy)
    }
}

impl Default for PixelArtEditor {
    /// A new editor.
    fn default() -> (editor: PixelArtEditor)
        ensures
            editor.wf(),
            editor@ == EditorView::initial(),
    {
        PixelArtEditor::new()
    }
}

} // verus!
