//! The editor's tools: painting, filling, shapes and filters on the layer
//! being edited.
//!
//! Each of them changes the pixels of that layer only, keeps their number,
//! and marks the cached image as out of date. The painting tools save no
//! checkpoint: one stroke takes many calls, and is checkpointed once, by
//! `push_undo`, before its first. A filter command and a cut are one
//! action each, and save their own.

use vstd::prelude::*;
use crate::color::Color;
use crate::grid::{Pixels, pixels, has_size, in_bounds, with_pixel, width_of};
use crate::layer::frame_has_size;
use crate::editor::{PixelArtEditor, EditorView};
use crate::paint::{Symmetry, Shape, painted, paint_point, paint_shape, painted_twice, disc, box_at,
    cut_out};
use crate::fill::flood_filled;
use crate::line::line;
use crate::circle::circle;
use crate::tools::Tool;
use crate::filters::{blurred, pixelated, outlined, color_replaced};
use crate::plugins::{PluginResult, BlurPlugin, NoisePlugin, OutlinePlugin, PixelatePlugin,
    ColorReplacementPlugin, noisy, same_text};
use vstd::string::*;

verus! {

impl PixelArtEditor {
    /// An editor that differs from a well-formed one only in the pixels of
    /// the layer being edited, which kept their size, and in a cache marked
    /// dirty, is well formed, and its model is the old one with those
    /// pixels.
    pub proof fn active_pixels_changed(&self, before: &PixelArtEditor, p: Pixels)
        requires
            before.wf(),
            has_size(p, before@.doc.width(), before@.doc.height()),
            self@.with_doc(before@.doc) == before@.with_doc(before@.doc),
            self.current_frame == before.current_frame,
            self.current_layer == before.current_layer,
            self.frames.len() == before.frames.len(),
            forall|i: int|
                0 <= i < self.frames.len() && i != before.current_frame ==> self.frames[i]@
                    == before.frames[i]@,
            self.frames[before.current_frame as int].layers.len()
                == before.frames[before.current_frame as int].layers.len(),
            forall|j: int|
                0 <= j < self.frames[before.current_frame as int].layers.len() && j
                    != before.current_layer
                    ==> self.frames[before.current_frame as int].layers[j]@
                    == before.frames[before.current_frame as int].layers[j]@,
            self.frames[before.current_frame as int].layers[before.current_layer as int]@
                == before@.doc.active().with_pixels(p),
            self.cache_dirty,
        ensures
            self@ == before@.with_pixels(p),
            self.wf(),
    {
        let d = before@.doc;
        let cf = d.current_frame;
        let cl = d.current_layer;
        let want = before@.with_pixels(p);
        assert(self@.doc.frames =~= want.doc.frames) by {
            assert forall|i: int| 0 <= i < self.frames.len() implies self@.doc.frames[i]
                == want.doc.frames[i] by {
                if i == cf {
                    assert(self@.doc.frames[i] =~= want.doc.frames[i]);
                }
            }
        }
        assert(self@ == want);
        let w = d.width();
        let h = d.height();
        assert forall|i: int| 0 <= i < want.doc.frames.len() implies frame_has_size(
            #[trigger] want.doc.frames[i],
            w,
            h,
        ) by {
            assert(frame_has_size(d.frames[i], w, h));
            if i == cf {
                assert forall|j: int| 0 <= j < want.doc.frames[i].len() implies has_size(
                    (#[trigger] want.doc.frames[i][j]).pixels,
                    w,
                    h,
                ) by {
                    if j != cl {
                        assert(want.doc.frames[i][j] == d.frames[i][j]);
                    }
                }
            }
        }
        assert(frame_has_size(want.doc.frames[0], w, h));
        assert(has_size(want.doc.frames[0][0].pixels, w, h));
        assert(has_size(d.frames[0][0].pixels, w, h)) by {
            assert(frame_has_size(d.frames[0], w, h));
        }
        crate::grid::sized_is_rectangular(want.doc.frames[0][0].pixels, w, h);
        crate::grid::sized_is_rectangular(d.frames[0][0].pixels, w, h);
    }

    /// Paints the pixel `(x, y)` of the layer being edited and, with
    /// symmetry on, its mirror images. Outside the layer nothing happens.
    pub fn paint_with_symmetry(&mut self, x: usize, y: usize, color: Color)
        requires
            old(self).wf(),
        ensures
            final(self).wf(),
            final(self)@ == old(self)@.with_pixels(
                painted(
                    old(self)@.doc.active().pixels,
                    set![(x as int, y as int)],
                    old(self)@.symmetry(),
                    color,
                ),
            ),
    {
        let sym = self.symmetry();
        let cf = self.current_frame;
        let cl = self.current_layer;
        let ghost before = *self;
        proof {
            self.active_layer_facts();
        }
        paint_point(&mut self.frames[cf].layers[cl].grid, x, y, color, sym);
        self.cache_dirty = true;
        proof {
            let p = painted(before@.doc.active().pixels, set![(x as int, y as int)], sym, color);
            size_kept(before@.doc.active().pixels, p, before@.doc.width(), before@.doc.height());
            self.active_pixels_changed(&before, p);
        }
    }

    /// The color at `(x, y)` of the layer being edited, or `None` outside
    /// it.
    pub fn get_pixel(&self, x: usize, y: usize) -> (c: Option<Color>)
        requires
            self.wf(),
        ensures
            c == if in_bounds(self@.doc.active().pixels, x as int, y as int) {
                Some(self@.doc.active().pixels[y as int][x as int])
            } else {
                None
            },
    {
        self.get_active_layer().get_pixel(x, y)
    }

    /// Writes `color` at `(x, y)` of the layer being edited, whatever the
    /// symmetry setting; outside the layer nothing happens.
    pub fn set_pixel(&mut self, x: usize, y: usize, color: Color)
        requires
            old(self).wf(),
        ensures
            final(self).wf(),
            final(self)@ == old(self)@.with_pixels(
                with_pixel(old(self)@.doc.active().pixels, x as int, y as int, color),
            ),
    {
        let cf = self.current_frame;
        let cl = self.current_layer;
        let ghost before = *self;
        proof {
            self.active_layer_facts();
        }
        self.frames[cf].layers[cl].set_pixel(x, y, color);
        self.cache_dirty = true;
        proof {
            let was = before@.doc.active().pixels;
            let p = with_pixel(was, x as int, y as int, color);
            size_kept(was, p, before@.doc.width(), before@.doc.height());
            self.active_pixels_changed(&before, p);
        }
    }

    /// Puts a grid of the canvas size in place of the pixels of the layer
    /// being edited.
    pub fn replace_active_pixels(&mut self, grid: Vec<Vec<Color>>)
        requires
            old(self).wf(),
            has_size(pixels(grid), old(self)@.doc.width(), old(self)@.doc.height()),
        ensures
            final(self).wf(),
            final(self)@ == old(self)@.with_pixels(pixels(grid)),
    {
        let cf = self.current_frame;
        let cl = self.current_layer;
        let ghost before = *self;
        proof {
            self.active_layer_facts();
        }
        self.frames[cf].layers[cl].grid = grid;
        self.cache_dirty = true;
        proof {
            self.active_pixels_changed(&before, pixels(grid));
        }
    }

    /// Paints a shape into the layer being edited.
    fn paint_active(&mut self, shape: Shape, color: Color, sym: Symmetry)
        requires
            old(self).wf(),
        ensures
            final(self).wf(),
            final(self)@ == old(self)@.with_pixels(
                painted(old(self)@.doc.active().pixels, shape.points(), sym, color),
            ),
    {
        let cf = self.current_frame;
        let cl = self.current_layer;
        let ghost before = *self;
        proof {
            self.active_layer_facts();
        }
        paint_shape(&mut self.frames[cf].layers[cl].grid, shape, color, sym);
        self.cache_dirty = true;
        proof {
            let p = painted(before@.doc.active().pixels, shape.points(), sym, color);
            size_kept(before@.doc.active().pixels, p, before@.doc.width(), before@.doc.height());
            self.active_pixels_changed(&before, p);
        }
    }

    /// Paints one dab of the brush: every pixel within half the brush size
    /// of the center, mirrored where symmetry is on.
    pub fn paint_brush(&mut self, center_x: usize, center_y: usize, color: Color)
        requires
            old(self).wf(),
        ensures
            final(self).wf(),
            final(self)@ == old(self)@.with_pixels(
                painted(
                    old(self)@.doc.active().pixels,
                    disc(center_x as int, center_y as int, (old(self)@.brush_size / 2) as int),
                    old(self)@.symmetry(),
                    color,
                ),
            ),
    {
        let sym = self.symmetry();
        let radius = self.brush_size / 2;
        self.paint_active(Shape::Disc { cx: center_x, cy: center_y, radius }, color, sym);
    }

    /// Erases one dab of the brush: every pixel within half the brush size
    /// of the center becomes transparent. The eraser is never mirrored.
    pub fn erase_brush(&mut self, center_x: usize, center_y: usize)
        requires
            old(self).wf(),
        ensures
            final(self).wf(),
            final(self)@ == old(self)@.with_pixels(
                painted(
                    old(self)@.doc.active().pixels,
                    disc(center_x as int, center_y as int, (old(self)@.brush_size / 2) as int),
                    Symmetry::spec_none(),
                    Color::spec_transparent(),
                ),
            ),
    {
        let radius = self.brush_size / 2;
        self.paint_active(
            Shape::Disc { cx: center_x, cy: center_y, radius },
            Color::transparent(),
            Symmetry::none(),
        );
    }

    /// Paints the two cells of the 2 by 2 block at `(x, y)` whose Bayer
    /// threshold lies below the middle: the block's corner and the cell
    /// diagonally across.
    pub fn apply_dither(&mut self, x: usize, y: usize, color: Color)
        requires
            old(self).wf(),
        ensures
            final(self).wf(),
            final(self)@ == old(self)@.with_pixels(
                painted(
                    old(self)@.doc.active().pixels,
                    dither_cells(x as int, y as int),
                    Symmetry::spec_none(),
                    color,
                ),
            ),
    {
        let cf = self.current_frame;
        let cl = self.current_layer;
        let ghost before = *self;
        let ghost was = before@.doc.active().pixels;
        proof {
            self.active_layer_facts();
        }
        crate::line::paint_at(
            &mut self.frames[cf].layers[cl].grid,
            x as i128,
            y as i128,
            color,
            Symmetry::none(),
        );
        crate::line::paint_at(
            &mut self.frames[cf].layers[cl].grid,
            x as i128 + 1,
            y as i128 + 1,
            color,
            Symmetry::none(),
        );
        self.cache_dirty = true;
        proof {
            let none = Symmetry::spec_none();
            painted_twice(was, set![(x as int, y as int)], set![(x + 1, y + 1)], none, color);
            assert(set![(x as int, y as int)].union(set![(x + 1, y + 1)]) =~= dither_cells(
                x as int,
                y as int,
            ));
            let p = painted(was, dither_cells(x as int, y as int), none, color);
            size_kept(was, p, before@.doc.width(), before@.doc.height());
            self.active_pixels_changed(&before, p);
        }
    }

    /// Recolors the region of the pixel `(start_x, start_y)` of the layer
    /// being edited with `new_color`.
    pub fn flood_fill(&mut self, start_x: usize, start_y: usize, new_color: Color)
        requires
            old(self).wf(),
        ensures
            final(self).wf(),
            final(self)@ == old(self)@.with_pixels(
                flood_filled(
                    old(self)@.doc.active().pixels,
                    start_x as int,
                    start_y as int,
                    new_color,
                ),
            ),
    {
        let cf = self.current_frame;
        let cl = self.current_layer;
        let ghost before = *self;
        proof {
            self.active_layer_facts();
        }
        crate::fill::flood_fill(&mut self.frames[cf].layers[cl].grid, start_x, start_y, new_color);
        self.cache_dirty = true;
        proof {
            let was = before@.doc.active().pixels;
            let p = flood_filled(was, start_x as int, start_y as int, new_color);
            size_kept(was, p, before@.doc.width(), before@.doc.height());
            self.active_pixels_changed(&before, p);
        }
    }

    /// Draws the line from `(start_x, start_y)` to `(end_x, end_y)`,
    /// mirrored where symmetry is on.
    pub fn draw_animated_line(
        &mut self,
        start_x: usize,
        start_y: usize,
        end_x: usize,
        end_y: usize,
        color: Color,
    )
        requires
            old(self).wf(),
        ensures
            final(self).wf(),
            final(self)@ == old(self)@.with_pixels(
                painted(
                    old(self)@.doc.active().pixels,
                    line(start_x as int, start_y as int, end_x as int, end_y as int),
                    old(self)@.symmetry(),
                    color,
                ),
            ),
    {
        let sym = self.symmetry();
        let cf = self.current_frame;
        let cl = self.current_layer;
        let ghost before = *self;
        proof {
            self.active_layer_facts();
        }
        crate::line::paint_line(
            &mut self.frames[cf].layers[cl].grid,
            start_x,
            start_y,
            end_x,
            end_y,
            color,
            sym,
        );
        self.cache_dirty = true;
        proof {
            let was = before@.doc.active().pixels;
            let p = painted(
                was,
                line(start_x as int, start_y as int, end_x as int, end_y as int),
                sym,
                color,
            );
            size_kept(was, p, before@.doc.width(), before@.doc.height());
            self.active_pixels_changed(&before, p);
        }
    }

    /// Draws the rectangle between two corners, filled or as an outline,
    /// mirrored where symmetry is on.
    pub fn draw_animated_rectangle(
        &mut self,
        start_x: usize,
        start_y: usize,
        end_x: usize,
        end_y: usize,
        color: Color,
        filled: bool,
    )
        requires
            old(self).wf(),
        ensures
            final(self).wf(),
            final(self)@ == old(self)@.with_pixels(
                painted(
                    old(self)@.doc.active().pixels,
                    rectangle(start_x, start_y, end_x, end_y, filled).points(),
                    old(self)@.symmetry(),
                    color,
                ),
            ),
    {
        let sym = self.symmetry();
        let min_x = if start_x <= end_x {
            start_x
        } else {
            end_x
        };
        let max_x = if start_x <= end_x {
            end_x
        } else {
            start_x
        };
        let min_y = if start_y <= end_y {
            start_y
        } else {
            end_y
        };
        let max_y = if start_y <= end_y {
            end_y
        } else {
            start_y
        };
        let shape = if filled {
            Shape::Rect { min_x, min_y, max_x, max_y }
        } else {
            Shape::RectOutline { min_x, min_y, max_x, max_y }
        };
        self.paint_active(shape, color, sym);
    }

    /// Draws the circle of the given radius around `(center_x, center_y)`,
    /// filled or as an outline, mirrored where symmetry is on.
    pub fn draw_animated_circle(
        &mut self,
        center_x: usize,
        center_y: usize,
        radius: usize,
        color: Color,
        filled: bool,
    )
        requires
            old(self).wf(),
        ensures
            final(self).wf(),
            final(self)@ == old(self)@.with_pixels(
                painted(
                    old(self)@.doc.active().pixels,
                    if filled {
                        disc(center_x as int, center_y as int, radius as int)
                    } else {
                        circle(center_x as int, center_y as int, radius as int)
                    },
                    old(self)@.symmetry(),
                    color,
                ),
            ),
    {
        let sym = self.symmetry();
        if filled {
            self.paint_active(Shape::Disc { cx: center_x, cy: center_y, radius }, color, sym);
        } else {
            let cf = self.current_frame;
            let cl = self.current_layer;
            let ghost before = *self;
            proof {
                self.active_layer_facts();
            }
            crate::circle::paint_circle_outline(
                &mut self.frames[cf].layers[cl].grid,
                center_x,
                center_y,
                radius,
                color,
                sym,
            );
            self.cache_dirty = true;
            proof {
                let was = before@.doc.active().pixels;
                let p = painted(
                    was,
                    circle(center_x as int, center_y as int, radius as int),
                    sym,
                    color,
                );
                size_kept(was, p, before@.doc.width(), before@.doc.height());
                self.active_pixels_changed(&before, p);
            }
        }
    }

    /// A copy of the box of `w` by `h` pixels at `(x, y)` of the layer
    /// being edited, transparent where the box lies outside the layer.
    pub fn copy_selection(&self, x: usize, y: usize, w: usize, h: usize) -> (out: Vec<Vec<Color>>)
        requires
            self.wf(),
        ensures
            pixels(out) == cut_out(self@.doc.active().pixels, x as int, y as int, w as nat, h as nat),
    {
        crate::paint::copy_region(&self.get_active_layer().grid, x, y, w, h)
    }

    /// Makes the box of `w` by `h` pixels at `(x, y)` of the layer being
    /// edited transparent.
    pub fn clear_selection(&mut self, x: usize, y: usize, w: usize, h: usize)
        requires
            old(self).wf(),
        ensures
            final(self).wf(),
            final(self)@ == old(self)@.with_pixels(
                painted(
                    old(self)@.doc.active().pixels,
                    box_at(x as int, y as int, w as int, h as int),
                    Symmetry::spec_none(),
                    Color::spec_transparent(),
                ),
            ),
    {
        let cf = self.current_frame;
        let cl = self.current_layer;
        let ghost before = *self;
        proof {
            self.active_layer_facts();
        }
        crate::paint::clear_region(&mut self.frames[cf].layers[cl].grid, x, y, w, h);
        self.cache_dirty = true;
        proof {
            let was = before@.doc.active().pixels;
            let p = painted(
                was,
                box_at(x as int, y as int, w as int, h as int),
                Symmetry::spec_none(),
                Color::spec_transparent(),
            );
            size_kept(was, p, before@.doc.width(), before@.doc.height());
            self.active_pixels_changed(&before, p);
        }
    }

    /// Copies the box of `w` by `h` pixels at `(x, y)` of the layer being
    /// edited and makes it transparent, after a checkpoint.
    pub fn cut_selection(&mut self, x: usize, y: usize, w: usize, h: usize) -> (out: Vec<Vec<Color>>)
        requires
            old(self).wf(),
        ensures
            final(self).wf(),
            pixels(out) == cut_out(
                old(self)@.doc.active().pixels,
                x as int,
                y as int,
                w as nat,
                h as nat,
            ),
            final(self)@ == old(self)@.saved().with_pixels(
                painted(
                    old(self)@.doc.active().pixels,
                    box_at(x as int, y as int, w as int, h as int),
                    Symmetry::spec_none(),
                    Color::spec_transparent(),
                ),
            ),
    {
        self.push_undo();
        let out = self.copy_selection(x, y, w, h);
        self.clear_selection(x, y, w, h);
        out
    }

    /// Sprays around `(center_x, center_y)` with the spray's size and
    /// intensity: paints random points within the spray's radius, mirrored
    /// where symmetry is on.
    pub fn paint_spray(&mut self, center_x: usize, center_y: usize, color: Color)
        requires
            old(self).wf(),
        ensures
            final(self).wf(),
            exists|shape: Set<(int, int)>|
                shape.subset_of(
                    disc(center_x as int, center_y as int, old(self)@.spray_size as int),
                ) && final(self)@ == old(self)@.with_pixels(
                    #[trigger] painted(
                        old(self)@.doc.active().pixels,
                        shape,
                        old(self)@.symmetry(),
                        color,
                    ),
                ),
    {
        let sym = self.symmetry();
        let radius = self.spray_size;
        let intensity = self.spray_intensity;
        let cf = self.current_frame;
        let cl = self.current_layer;
        let ghost before = *self;
        proof {
            self.active_layer_facts();
        }
        crate::spray::spray_grid(
            &mut self.frames[cf].layers[cl].grid,
            center_x,
            center_y,
            radius,
            intensity,
            color,
            sym,
        );
        self.cache_dirty = true;
        proof {
            let was = before@.doc.active().pixels;
            let shape = choose|shape: Set<(int, int)>|
                shape.subset_of(disc(center_x as int, center_y as int, radius as int))
                    && self.frames[cf as int].layers[cl as int]@.pixels == #[trigger] painted(
                    was,
                    shape,
                    sym,
                    color,
                );
            let p = painted(was, shape, sym, color);
            size_kept(was, p, before@.doc.width(), before@.doc.height());
            self.active_pixels_changed(&before, p);
        }
    }

    /// Uses a tool at `(x, y)`: the pencil and the eraser paint the pixel
    /// (the eraser with no color at all), the bucket fills, the eyedropper
    /// picks the layer's color at the pixel up as the selected color, the
    /// spray sprays, the dither tool dithers, and every other tool paints
    /// the pixel.
    pub fn use_tool_with_animation(&mut self, tool: Tool, x: usize, y: usize, color: Color)
        requires
            old(self).wf(),
        ensures
            final(self).wf(),
            tool != Tool::Spray ==> final(self)@ == tool_used(old(self)@, tool, x as int, y as int, color),
            tool == Tool::Spray ==> exists|shape: Set<(int, int)>|
                shape.subset_of(disc(x as int, y as int, old(self)@.spray_size as int)) && final(self)@ == old(self)@.with_pixels(
                    #[trigger] painted(
                        old(self)@.doc.active().pixels,
                        shape,
                        old(self)@.symmetry(),
                        color,
                    ),
                ),
    {
        match tool {
            Tool::Eraser => {
                self.paint_with_symmetry(x, y, Color::transparent());
            },
            Tool::Bucket => {
                self.flood_fill(x, y, color);
            },
            Tool::Eyedropper => {
                let picked = self.get_active_layer().get_pixel(x, y);
                match picked {
                    Some(c) => {
                        self.selected_color = c;
                    },
                    None => {},
                }
            },
            Tool::Spray => {
                self.paint_spray(x, y, color);
            },
            Tool::Dither => {
                self.apply_dither(x, y, color);
            },
            _ => {
                self.paint_with_symmetry(x, y, color);
            },
        }
    }

    /// Applies a filter to the layer being edited, after a checkpoint.
    /// Pixelation with blocks of no size is refused: it returns `false`
    /// and changes nothing.
    pub fn apply_filter(&mut self, filter: Filter) -> (done: bool)
        requires
            old(self).wf(),
        ensures
            final(self).wf(),
            done == filter.applicable(),
            done && !(filter is Noise) ==> final(self)@ == old(self)@.saved().with_pixels(
                filter.applied(old(self)@.doc.active().pixels),
            ),
            filter matches Filter::Noise { intensity } ==> exists|q: Pixels|
                #[trigger] noisy(old(self)@.doc.active().pixels, q, intensity) && final(self)@
                    == old(self)@.saved().with_pixels(q),
            !done ==> final(self)@ == old(self)@,
    {
        match filter {
            Filter::Pixelate { block_size } => {
                if block_size == 0 {
                    return false;
                }
            },
            _ => {},
        }
        self.push_undo();
        let cf = self.current_frame;
        let cl = self.current_layer;
        let ghost before = *self;
        let ghost was = before@.doc.active().pixels;
        proof {
            self.active_layer_facts();
            crate::grid::sized_is_rectangular(was, before@.doc.width(), before@.doc.height());
            let d = before@.doc;
            assert(was.len() == d.height());
            assert(width_of(was) == d.width());
        }
        match filter {
            Filter::Blur { radius } => {
                BlurPlugin::new().apply_blur(&mut self.frames[cf].layers[cl], radius);
            },
            Filter::Noise { intensity } => {
                NoisePlugin::new().apply_noise(&mut self.frames[cf].layers[cl], intensity);
            },
            Filter::Outline { color, thickness } => {
                OutlinePlugin::new().apply_outline(&mut self.frames[cf].layers[cl], color, thickness);
            },
            Filter::Pixelate { block_size } => {
                PixelatePlugin::new().apply_pixelate(&mut self.frames[cf].layers[cl], block_size);
            },
            Filter::ColorReplace { from_color, to_color, tolerance } => {
                ColorReplacementPlugin::new().replace_color(
                    &mut self.frames[cf].layers[cl],
                    from_color,
                    to_color,
                    tolerance,
                );
            },
        }
        self.cache_dirty = true;
        proof {
            let p = self.frames[cf as int].layers[cl as int]@.pixels;
            size_kept(was, p, before@.doc.width(), before@.doc.height());
            self.active_pixels_changed(&before, p);
            match filter {
                Filter::Noise { intensity } => {
                    assert(noisy(was, p, intensity));
                },
                _ => {},
            }
        }
        true
    }

    /// Carries out a filter command on the layer being edited, after a
    /// checkpoint: "blur" with radius 1, "noise" with intensity 10,
    /// "outline" in black with thickness 1, "pixelate" with blocks of 2,
    /// "color_replace" of white by black with no tolerance. Any other
    /// command is an error and changes nothing.
    pub fn execute_plugin_command(&mut self, command_id: &str) -> (result: PluginResult)
        requires
            old(self).wf(),
        ensures
            final(self).wf(),
            default_filter_of(command_id@) is Some <==> result is Success,
            default_filter_of(command_id@) is Some && command_id@ != "noise"@ ==> final(self)@
                == old(self)@.saved().with_pixels(
                default_filter_of(command_id@)->0.applied(old(self)@.doc.active().pixels),
            ),
            command_id@ == "noise"@ ==> exists|q: Pixels|
                #[trigger] noisy(old(self)@.doc.active().pixels, q, 10) && final(self)@ == old(self)@.saved().with_pixels(q),
            default_filter_of(command_id@) is None ==> final(self)@ == old(self)@,
            default_filter_of(command_id@) is None ==> (result matches PluginResult::Error(message)
                && message@ == "Unknown plugin command: "@ + command_id@),
    {
        proof {
            reveal_strlit("blur");
            reveal_strlit("noise");
            reveal_strlit("outline");
            reveal_strlit("pixelate");
            reveal_strlit("color_replace");
            assert("blur"@.len() == 4);
            assert("noise"@.len() == 5);
            assert("outline"@.len() == 7);
            assert("pixelate"@.len() == 8);
            assert("color_replace"@.len() == 13);
        }
        match default_filter(command_id) {
            Some(filter) => {
                self.apply_filter(filter);
                PluginResult::Success
            },
            None => {
                let message = String::from_str("Unknown plugin command: ").concat(command_id);
                PluginResult::Error(message)
            },
        }
    }
}

/// A filter with its parameters.
#[derive(Clone, Copy, Debug, PartialEq, Eq, Structural)]
pub enum Filter {
    /// Box blur over the pixels at most `radius` away in either direction.
    Blur { radius: usize },
    /// Random noise of at most `intensity` on each color channel.
    Noise { intensity: u8 },
    /// An outline in `color` within `thickness` of the pixels with alpha.
    Outline { color: Color, thickness: usize },
    /// Pixelation in tiles of `block_size` by `block_size` pixels.
    Pixelate { block_size: usize },
    /// Replacement of the colors within `tolerance` of `from_color` by
    /// `to_color`.
    ColorReplace { from_color: Color, to_color: Color, tolerance: u8 },
}

impl Filter {
    /// Whether the filter can be applied: pixelation needs blocks of one
    /// pixel at least.
    pub open spec fn applicable(self) -> bool {
        match self {
            Filter::Pixelate { block_size } => block_size > 0,
            _ => true,
        }
    }

    /// What the filter makes of a grid. Noise is left to chance, and is
    /// not told here.
    pub open spec fn applied(self, p: Pixels) -> Pixels {
        match self {
            Filter::Blur { radius } => blurred(p, radius as int),
            Filter::Noise { intensity } => p,
            Filter::Outline { color, thickness } => outlined(p, color, thickness as int),
            Filter::Pixelate { block_size } => pixelated(p, block_size as int),
            Filter::ColorReplace { from_color, to_color, tolerance } => color_replaced(
                p,
                from_color,
                to_color,
                tolerance,
            ),
        }
    }
}

/// The filter that a command stands for, with the parameters it has when
/// none are given.
pub open spec fn default_filter_of(command: Seq<char>) -> Option<Filter> {
    if command == "blur"@ {
        Some(Filter::Blur { radius: 1 })
    } else if command == "noise"@ {
        Some(Filter::Noise { intensity: 10 })
    } else if command == "outline"@ {
        Some(Filter::Outline { color: Color { r: 0, g: 0, b: 0, a: 255 }, thickness: 1 })
    } else if command == "pixelate"@ {
        Some(Filter::Pixelate { block_size: 2 })
    } else if command == "color_replace"@ {
        Some(
            Filter::ColorReplace {
                from_color: Color { r: 255, g: 255, b: 255, a: 255 },
                to_color: Color { r: 0, g: 0, b: 0, a: 255 },
                tolerance: 0,
            },
        )
    } else {
        None
    }
}

/// The filter that a command stands for, or `None` for an unknown
/// command.
pub fn default_filter(command_id: &str) -> (filter: Option<Filter>)
    ensures
        filter == default_filter_of(command_id@),
{
    if same_text(command_id, "blur") {
        Some(Filter::Blur { radius: 1 })
    } else if same_text(command_id, "noise") {
        Some(Filter::Noise { intensity: 10 })
    } else if same_text(command_id, "outline") {
        Some(Filter::Outline { color: Color::black(), thickness: 1 })
    } else if same_text(command_id, "pixelate") {
        Some(Filter::Pixelate { block_size: 2 })
    } else if same_text(command_id, "color_replace") {
        Some(
            Filter::ColorReplace {
                from_color: Color::white(),
                to_color: Color::black(),
                tolerance: 0,
            },
        )
    } else {
        None
    }
}

/// The editor after the use of a tool, other than the spray, at `(x, y)`.
pub open spec fn tool_used(v: EditorView, tool: Tool, x: int, y: int, color: Color) -> EditorView {
    let p = v.doc.active().pixels;
    match tool {
        Tool::Eraser => v.with_pixels(
            painted(p, set![(x, y)], v.symmetry(), Color::spec_transparent()),
        ),
        Tool::Bucket => v.with_pixels(flood_filled(p, x, y, color)),
        Tool::Eyedropper => if in_bounds(p, x, y) {
            EditorView { selected_color: p[y][x], ..v }
        } else {
            v
        },
        Tool::Dither => v.with_pixels(painted(p, dither_cells(x, y), Symmetry::spec_none(), color)),
        _ => v.with_pixels(painted(p, set![(x, y)], v.symmetry(), color)),
    }
}

/// The two cells that a dither at `(x, y)` paints.
pub open spec fn dither_cells(x: int, y: int) -> Set<(int, int)> {
    set![(x, y), (x + 1, y + 1)]
}

/// The rectangle between two corners given in any order.
pub open spec fn rectangle(
    start_x: usize,
    start_y: usize,
    end_x: usize,
    end_y: usize,
    filled: bool,
) -> Shape {
    let min_x = if start_x <= end_x {
        start_x
    } else {
        end_x
    };
    let max_x = if start_x <= end_x {
        end_x
    } else {
        start_x
    };
    let min_y = if start_y <= end_y {
        start_y
    } else {
        end_y
    };
    let max_y = if start_y <= end_y {
        end_y
    } else {
        start_y
    };
    if filled {
        Shape::Rect { min_x, min_y, max_x, max_y }
    } else {
        Shape::RectOutline { min_x, min_y, max_x, max_y }
    }
}

/// A rectangular grid with the rows and the row lengths of a grid of a
/// given size has that size.
pub proof fn size_kept(p: Pixels, q: Pixels, w: nat, h: nat)
    requires
        has_size(p, w, h),
        q.len() == p.len(),
        forall|y: int| 0 <= y < p.len() ==> (#[trigger] q[y]).len() == p[y].len(),
    ensures
        has_size(q, w, h),
{
    assert forall|y: int| 0 <= y < h implies (#[trigger] q[y]).len() == w by {
        assert(p[y].len() == w);
    }
}

} // verus!
