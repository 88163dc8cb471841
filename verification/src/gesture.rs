//! What the pointer does on the canvas.
//!
//! The window reports what happened to the pixel under the pointer as one
//! event at a time; the tool in hand decides what that does to the
//! document and to the state that the tools keep between events: the first
//! corner of a line, a rectangle, a circle or a selection, the path of a
//! lasso, the layer as it was when a move began.
//!
//! One action of the user saves one checkpoint: a click that changes
//! pixels saves one, and a drag saves one when it starts, however many
//! pixels it crosses.

use vstd::prelude::*;
use crate::color::Color;
use crate::grid::{Pixels, pixels, has_size, copy_grid, with_pixel};
use crate::editor::{PixelArtEditor, EditorView};
use crate::editing::{tool_used, rectangle, dither_cells};
use crate::document::grid_has_size;
use crate::paint::{Symmetry, painted, disc};
use crate::line::line;
use crate::circle::{circle, picked_radius, radius_between};
use crate::resize::{moved, shift_grid};
use crate::tools::Tool;

verus! {

/// What happened to the pixel under the pointer.
#[derive(Clone, Copy, Debug, PartialEq, Eq, Structural)]
pub enum PointerEvent {
    /// The main button was pressed and released on the pixel.
    Click,
    /// The same, with the Alt key held.
    AltClick,
    /// The other button was pressed and released on the pixel.
    SecondaryClick,
    /// A drag with the main button began on the pixel.
    DragStart,
    /// A drag with the main button reached the pixel.
    Drag,
    /// A drag with the other button reached the pixel.
    SecondaryDrag,
    /// A drag ended.
    DragStop,
}

/// What the tools keep between events.
pub struct ToolState {
    /// Where the move under way began.
    pub move_drag_start: Option<(usize, usize)>,
    /// The layer's pixels as they were when the move began.
    pub move_layer_snapshot: Option<Vec<Vec<Color>>>,
    /// How far the layer has been moved so far.
    pub move_last_offset: Option<(i128, i128)>,
    pub line_start: Option<(usize, usize)>,
    pub rectangle_start: Option<(usize, usize)>,
    pub circle_start: Option<(usize, usize)>,
    pub selection_start: Option<(usize, usize)>,
    /// The selection: its least and greatest column and row, as
    /// `(min_x, min_y, max_x, max_y)`.
    pub selection_rect: Option<(usize, usize, usize, usize)>,
    pub lasso_points: Vec<(usize, usize)>,
    pub lasso_active: bool,
    pub lasso_selection: Option<Vec<(usize, usize)>>,
}

/// The model of the tools' state.
pub struct ToolStateView {
    pub move_drag_start: Option<(usize, usize)>,
    pub move_layer_snapshot: Option<Pixels>,
    pub move_last_offset: Option<(i128, i128)>,
    pub line_start: Option<(usize, usize)>,
    pub rectangle_start: Option<(usize, usize)>,
    pub circle_start: Option<(usize, usize)>,
    pub selection_start: Option<(usize, usize)>,
    pub selection_rect: Option<(usize, usize, usize, usize)>,
    pub lasso_points: Seq<(usize, usize)>,
    pub lasso_active: bool,
    pub lasso_selection: Option<Seq<(usize, usize)>>,
}

impl View for ToolState {
    type V = ToolStateView;

    open spec fn view(&self) -> ToolStateView {
        ToolStateView {
            move_drag_start: self.move_drag_start,
            move_layer_snapshot: match self.move_layer_snapshot {
                Some(g) => Some(pixels(g)),
                None => None,
            },
            move_last_offset: self.move_last_offset,
            line_start: self.line_start,
            rectangle_start: self.rectangle_start,
            circle_start: self.circle_start,
            selection_start: self.selection_start,
            selection_rect: self.selection_rect,
            lasso_points: self.lasso_points@,
            lasso_active: self.lasso_active,
            lasso_selection: match self.lasso_selection {
                Some(p) => Some(p@),
                None => None,
            },
        }
    }
}

impl ToolStateView {
    /// The state before anything has happened.
    pub open spec fn idle() -> ToolStateView {
        ToolStateView {
            move_drag_start: None,
            move_layer_snapshot: None,
            move_last_offset: None,
            line_start: None,
            rectangle_start: None,
            circle_start: None,
            selection_start: None,
            selection_rect: None,
            lasso_points: Seq::empty(),
            lasso_active: false,
            lasso_selection: None,
        }
    }
}

/// The smaller of two coordinates.
pub open spec fn least(a: usize, b: usize) -> usize {
    if a <= b {
        a
    } else {
        b
    }
}

/// The larger of two coordinates.
pub open spec fn most(a: usize, b: usize) -> usize {
    if a <= b {
        b
    } else {
        a
    }
}

/// Whether the event sprays: what it paints is then left to chance.
pub open spec fn sprays(tool: Tool, event: PointerEvent) -> bool {
    tool == Tool::Spray && (event == PointerEvent::Click || event == PointerEvent::Drag)
}

/// What a click on `(x, y)` does with any tool but the spray. `shown` is
/// the color on display there.
pub open spec fn clicked(ed: EditorView, ts: ToolStateView, x: usize, y: usize, shown: Color) -> (
    EditorView,
    ToolStateView,
) {
    let active = ed.doc.active().pixels;
    match ed.tool {
        Tool::Pencil | Tool::Bucket | Tool::Dither | Tool::Eraser | Tool::Spray => (
            tool_used(ed.saved(), ed.tool, x as int, y as int, ed.selected_color),
            ts,
        ),
        Tool::Eyedropper => (EditorView { selected_color: shown, ..ed }, ts),
        Tool::Line => match ts.line_start {
            None => (ed, ToolStateView { line_start: Some((x, y)), ..ts }),
            Some(start) => (
                ed.saved().with_pixels(
                    painted(
                        active,
                        line(start.0 as int, start.1 as int, x as int, y as int),
                        ed.symmetry(),
                        ed.selected_color,
                    ),
                ),
                ToolStateView { line_start: None, ..ts },
            ),
        },
        Tool::Rectangle => match ts.rectangle_start {
            None => (ed, ToolStateView { rectangle_start: Some((x, y)), ..ts }),
            Some(start) => (
                ed.saved().with_pixels(
                    painted(
                        active,
                        rectangle(start.0, start.1, x, y, ed.fill_shape).points(),
                        ed.symmetry(),
                        ed.selected_color,
                    ),
                ),
                ToolStateView { rectangle_start: None, ..ts },
            ),
        },
        Tool::Circle => match ts.circle_start {
            None => (ed, ToolStateView { circle_start: Some((x, y)), ..ts }),
            Some(start) => {
                let radius = picked_radius(start.0 as int, start.1 as int, x as int, y as int);
                (
                    ed.saved().with_pixels(
                        painted(
                            active,
                            if ed.fill_shape {
                                disc(start.0 as int, start.1 as int, radius)
                            } else {
                                circle(start.0 as int, start.1 as int, radius)
                            },
                            ed.symmetry(),
                            ed.selected_color,
                        ),
                    ),
                    ToolStateView { circle_start: None, ..ts },
                )
            },
        },
        Tool::Select => match ts.selection_start {
            None => (ed, ToolStateView { selection_start: Some((x, y)), ..ts }),
            Some(start) => (
                ed,
                ToolStateView {
                    selection_start: None,
                    selection_rect: Some(
                        (least(start.0, x), least(start.1, y), most(start.0, x), most(start.1, y)),
                    ),
                    ..ts
                },
            ),
        },
        Tool::Lasso => (
            ed,
            ToolStateView {
                lasso_active: true,
                lasso_points: if ts.lasso_active {
                    ts.lasso_points.push((x, y))
                } else {
                    seq![(x, y)]
                },
                ..ts
            },
        ),
        Tool::Move => (ed, ts),
    }
}

/// What the start of a drag on `(x, y)` does: the tools that work by
/// dragging save a checkpoint, and the move tool also keeps the layer as
/// it is.
pub open spec fn drag_started(ed: EditorView, ts: ToolStateView, x: usize, y: usize) -> (
    EditorView,
    ToolStateView,
) {
    match ed.tool {
        Tool::Move => (
            ed.saved(),
            ToolStateView {
                move_drag_start: Some((x, y)),
                move_layer_snapshot: Some(ed.doc.active().pixels),
                move_last_offset: Some((0i128, 0i128)),
                ..ts
            },
        ),
        Tool::Pencil | Tool::Eraser | Tool::Spray | Tool::Dither => (ed.saved(), ts),
        _ => (ed, ts),
    }
}

/// What a drag that has reached `(x, y)` does with any tool but the spray.
pub open spec fn dragged(ed: EditorView, ts: ToolStateView, x: usize, y: usize) -> (
    EditorView,
    ToolStateView,
) {
    let active = ed.doc.active().pixels;
    let radius = (ed.brush_size / 2) as int;
    match ed.tool {
        Tool::Move => match (ts.move_drag_start, ts.move_layer_snapshot, ts.move_last_offset) {
            (Some(start), Some(snapshot), Some(last)) => {
                let dx = x - start.0;
                let dy = y - start.1;
                if (dx != last.0 || dy != last.1) && has_size(
                    snapshot,
                    ed.doc.width(),
                    ed.doc.height(),
                ) {
                    (
                        ed.with_pixels(moved(snapshot, dx, dy)),
                        ToolStateView { move_last_offset: Some((dx as i128, dy as i128)), ..ts },
                    )
                } else {
                    (ed, ts)
                }
            },
            _ => (ed, ts),
        },
        Tool::Pencil => (
            ed.with_pixels(
                painted(
                    active,
                    disc(x as int, y as int, radius),
                    ed.symmetry(),
                    ed.selected_color,
                ),
            ),
            ts,
        ),
        Tool::Eraser => (
            ed.with_pixels(
                painted(
                    active,
                    disc(x as int, y as int, radius),
                    Symmetry::spec_none(),
                    Color::spec_transparent(),
                ),
            ),
            ts,
        ),
        Tool::Dither => (
            ed.with_pixels(
                painted(
                    active,
                    dither_cells(x as int, y as int),
                    Symmetry::spec_none(),
                    ed.selected_color,
                ),
            ),
            ts,
        ),
        Tool::Lasso => (
            ed,
            if ts.lasso_active {
                ToolStateView { lasso_points: ts.lasso_points.push((x, y)), ..ts }
            } else {
                ts
            },
        ),
        _ => (ed, ts),
    }
}

/// What the end of a drag does: a move is over, and a lasso under way
/// closes into a selection.
pub open spec fn drag_stopped(ed: EditorView, ts: ToolStateView) -> ToolStateView {
    let closes = ed.tool == Tool::Lasso && ts.lasso_active && ts.lasso_points.len() > 0;
    ToolStateView {
        move_drag_start: None,
        move_layer_snapshot: None,
        move_last_offset: None,
        lasso_active: if closes {
            false
        } else {
            ts.lasso_active
        },
        lasso_selection: if closes {
            Some(ts.lasso_points)
        } else {
            ts.lasso_selection
        },
        ..ts
    }
}

/// What an event on the pixel `(x, y)` does, where it does not spray.
pub open spec fn handled(
    ed: EditorView,
    ts: ToolStateView,
    event: PointerEvent,
    x: usize,
    y: usize,
    shown: Color,
) -> (EditorView, ToolStateView) {
    let active = ed.doc.active().pixels;
    match event {
        PointerEvent::Click => clicked(ed, ts, x, y, shown),
        PointerEvent::AltClick => (EditorView { selected_color: shown, ..ed }, ts),
        PointerEvent::SecondaryClick => (
            ed.saved().with_pixels(
                painted(
                    active,
                    disc(x as int, y as int, (ed.brush_size / 2) as int),
                    Symmetry::spec_none(),
                    Color::spec_transparent(),
                ),
            ),
            ts,
        ),
        PointerEvent::DragStart => drag_started(ed, ts, x, y),
        PointerEvent::Drag => dragged(ed, ts, x, y),
        PointerEvent::SecondaryDrag => (
            ed.with_pixels(with_pixel(active, x as int, y as int, Color::spec_transparent())),
            ts,
        ),
        PointerEvent::DragStop => (ed, drag_stopped(ed, ts)),
    }
}

/// A copy of a path.
fn copy_points(points: &Vec<(usize, usize)>) -> (copy: Vec<(usize, usize)>)
    ensures
        copy@ == points@,
{
    let mut copy: Vec<(usize, usize)> = Vec::new();
    let mut i: usize = 0;
    while i < points.len()
        invariant
            i <= points.len(),
            copy@ == points@.subrange(0, i as int),
        decreases points.len() - i,
    {
        copy.push(points[i]);
        i += 1;
        assert(copy@ =~= points@.subrange(0, i as int));
    }
    assert(points@.subrange(0, points.len() as int) =~= points@);
    copy
}

impl ToolState {
    /// The state before anything has happened.
    pub fn new() -> (state: ToolState)
        ensures
            state@ == ToolStateView::idle(),
    {
        ToolState {
            move_drag_start: None,
            move_layer_snapshot: None,
            move_last_offset: None,
            line_start: None,
            rectangle_start: None,
            circle_start: None,
            selection_start: None,
            selection_rect: None,
            lasso_points: Vec::new(),
            lasso_active: false,
            lasso_selection: None,
        }
    }

    /// Does what an event on the pixel `(x, y)` asks for. `shown` is the
    /// color on display there, which the eyedropper picks up.
    pub fn handle_pixel_interaction(
        &mut self,
        editor: &mut PixelArtEditor,
        event: PointerEvent,
        x: usize,
        y: usize,
        shown: Color,
    )
        requires
            old(editor).wf(),
        ensures
            final(editor).wf(),
            !sprays(old(editor)@.tool, event) ==> final(editor)@ == handled(
                old(editor)@,
                old(self)@,
                event,
                x,
                y,
                shown,
            ).0,
            !sprays(old(editor)@.tool, event) ==> final(self)@ == handled(
                old(editor)@,
                old(self)@,
                event,
                x,
                y,
                shown,
            ).1,
            sprays(old(editor)@.tool, event) ==> final(self)@ == old(self)@,
            sprays(old(editor)@.tool, event) ==> exists|shape: Set<(int, int)>|
                shape.subset_of(disc(x as int, y as int, old(editor)@.spray_size as int)) && final(editor)@ == (if event == PointerEvent::Click {
                    old(editor)@.saved()
                } else {
                    old(editor)@
                }).with_pixels(
                    #[trigger] painted(
                        old(editor)@.doc.active().pixels,
                        shape,
                        old(editor)@.symmetry(),
                        old(editor)@.selected_color,
                    ),
                ),
    {
        match event {
            PointerEvent::Click => {
                self.click(editor, x, y, shown);
            },
            PointerEvent::AltClick => {
                editor.selected_color = shown;
            },
            PointerEvent::SecondaryClick => {
                editor.push_undo();
                editor.erase_brush(x, y);
            },
            PointerEvent::DragStart => {
                match editor.tool {
                    Tool::Move => {
                        let snapshot = copy_grid(&editor.get_active_layer().grid);
                        self.move_drag_start = Some((x, y));
                        self.move_layer_snapshot = Some(snapshot);
                        self.move_last_offset = Some((0, 0));
                        editor.push_undo();
                    },
                    Tool::Pencil | Tool::Eraser | Tool::Spray | Tool::Dither => {
                        editor.push_undo();
                    },
                    _ => {},
                }
            },
            PointerEvent::Drag => {
                self.drag(editor, x, y);
            },
            PointerEvent::SecondaryDrag => {
                editor.set_pixel(x, y, Color::transparent());
            },
            PointerEvent::DragStop => {
                self.move_drag_start = None;
                self.move_layer_snapshot = None;
                self.move_last_offset = None;
                if editor.tool == Tool::Lasso && self.lasso_active && self.lasso_points.len() > 0 {
                    self.lasso_selection = Some(copy_points(&self.lasso_points));
                    self.lasso_active = false;
                }
            },
        }
    }

    /// Does what a click on `(x, y)` asks for.
    fn click(&mut self, editor: &mut PixelArtEditor, x: usize, y: usize, shown: Color)
        requires
            old(editor).wf(),
        ensures
            final(editor).wf(),
            old(editor)@.tool != Tool::Spray ==> final(editor)@ == clicked(
                old(editor)@,
                old(self)@,
                x,
                y,
                shown,
            ).0,
            old(editor)@.tool != Tool::Spray ==> final(self)@ == clicked(
                old(editor)@,
                old(self)@,
                x,
                y,
                shown,
            ).1,
            old(editor)@.tool == Tool::Spray ==> final(self)@ == old(self)@,
            old(editor)@.tool == Tool::Spray ==> exists|shape: Set<(int, int)>|
                shape.subset_of(disc(x as int, y as int, old(editor)@.spray_size as int)) && final(editor)@ == old(editor)@.saved().with_pixels(
                    #[trigger] painted(
                        old(editor)@.doc.active().pixels,
                        shape,
                        old(editor)@.symmetry(),
                        old(editor)@.selected_color,
                    ),
                ),
    {
        let color = editor.selected_color;
        let tool = editor.tool;
        match tool {
            Tool::Pencil | Tool::Bucket | Tool::Dither | Tool::Eraser | Tool::Spray => {
                editor.push_undo();
                editor.use_tool_with_animation(tool, x, y, color);
            },
            Tool::Eyedropper => {
                editor.selected_color = shown;
            },
            Tool::Line => {
                match self.line_start {
                    None => {
                        self.line_start = Some((x, y));
                    },
                    Some(start) => {
                        editor.push_undo();
                        editor.draw_animated_line(start.0, start.1, x, y, color);
                        self.line_start = None;
                    },
                }
            },
            Tool::Rectangle => {
                match self.rectangle_start {
                    None => {
                        self.rectangle_start = Some((x, y));
                    },
                    Some(start) => {
                        let filled = editor.fill_shape;
                        editor.push_undo();
                        editor.draw_animated_rectangle(start.0, start.1, x, y, color, filled);
                        self.rectangle_start = None;
                    },
                }
            },
            Tool::Circle => {
                match self.circle_start {
                    None => {
                        self.circle_start = Some((x, y));
                    },
                    Some(start) => {
                        let filled = editor.fill_shape;
                        let radius = radius_between(start.0, start.1, x, y);
                        editor.push_undo();
                        editor.draw_animated_circle(start.0, start.1, radius, color, filled);
                        self.circle_start = None;
                    },
                }
            },
            Tool::Select => {
                match self.selection_start {
                    None => {
                        self.selection_start = Some((x, y));
                    },
                    Some(start) => {
                        let min_x = if start.0 <= x {
                            start.0
                        } else {
                            x
                        };
                        let max_x = if start.0 <= x {
                            x
                        } else {
                            start.0
                        };
                        let min_y = if start.1 <= y {
                            start.1
                        } else {
                            y
                        };
                        let max_y = if start.1 <= y {
                            y
                        } else {
                            start.1
                        };
                        self.selection_rect = Some((min_x, min_y, max_x, max_y));
                        self.selection_start = None;
                    },
                }
            },
            Tool::Lasso => {
                if !self.lasso_active {
                    self.lasso_points = Vec::new();
                    self.lasso_active = true;
                }
                self.lasso_points.push((x, y));
                assert(self@.lasso_points =~= clicked(old(editor)@, old(self)@, x, y, shown).1.lasso_points);
            },
            Tool::Move => {},
        }
    }

    /// Does what a drag that has reached `(x, y)` asks for.
    fn drag(&mut self, editor: &mut PixelArtEditor, x: usize, y: usize)
        requires
            old(editor).wf(),
        ensures
            final(editor).wf(),
            old(editor)@.tool != Tool::Spray ==> final(editor)@ == dragged(
                old(editor)@,
                old(self)@,
                x,
                y,
            ).0,
            old(editor)@.tool != Tool::Spray ==> final(self)@ == dragged(
                old(editor)@,
                old(self)@,
                x,
                y,
            ).1,
            old(editor)@.tool == Tool::Spray ==> final(self)@ == old(self)@,
            old(editor)@.tool == Tool::Spray ==> exists|shape: Set<(int, int)>|
                shape.subset_of(disc(x as int, y as int, old(editor)@.spray_size as int)) && final(editor)@ == old(editor)@.with_pixels(
                    #[trigger] painted(
                        old(editor)@.doc.active().pixels,
                        shape,
                        old(editor)@.symmetry(),
                        old(editor)@.selected_color,
                    ),
                ),
    {
        let color = editor.selected_color;
        match editor.tool {
            Tool::Move => {
                let width = editor.canvas_width();
                let height = editor.canvas_height();
                match (self.move_drag_start, &self.move_layer_snapshot, self.move_last_offset) {
                    (Some(start), Some(snapshot), Some(last)) => {
                        let dx: i128 = x as i128 - start.0 as i128;
                        let dy: i128 = y as i128 - start.1 as i128;
                        if (dx != last.0 || dy != last.1) && grid_has_size(snapshot, width, height) {
                            proof {
                                crate::grid::sized_is_rectangular(
                                    pixels(*snapshot),
                                    width as nat,
                                    height as nat,
                                );
                            }
                            let shifted = shift_grid(snapshot, dx, dy);
                            editor.replace_active_pixels(shifted);
                            self.move_last_offset = Some((dx, dy));
                        }
                    },
                    _ => {},
                }
            },
            Tool::Pencil => {
                editor.paint_brush(x, y, color);
            },
            Tool::Eraser => {
                editor.erase_brush(x, y);
            },
            Tool::Spray => {
                editor.paint_spray(x, y, color);
            },
            Tool::Dither => {
                editor.apply_dither(x, y, color);
            },
            Tool::Lasso => {
                if self.lasso_active {
                    self.lasso_points.push((x, y));
                }
            },
            _ => {},
        }
    }
}

} // verus!
