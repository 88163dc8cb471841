//! The built-in filter plugins, and the pixel buffer that plugins from
//! outside work on.

use vstd::prelude::*;
use vstd::string::*;
use crate::color::Color;
use crate::grid::{Pixels, pixels, has_size, rectangular, in_bounds, with_pixel, width_of};
use crate::layer::Layer;
use crate::filters::{countable, blurred, blur_grid, pixelated, pixelate_grid, outlined,
    outline_grid, color_replaced, replace_color_in, noise_of, add_noise_to};
use crate::fill::flood_filled;

verus! {

/// What kind of thing a plugin from outside does.
#[derive(Clone, Copy, Debug, PartialEq, Eq, Structural)]
pub enum PluginType {
    Tool,
    Filter,
    Effect,
    Import,
    Export,
    Utility,
}

/// Under which heading a plugin's commands are listed.
#[derive(Clone, Copy, Debug, PartialEq, Eq, Structural)]
pub enum PluginCategory {
    Tool,
    Filter,
    Animation,
    Import,
    Export,
    Utility,
}

/// How a plugin command ended.
#[derive(Debug)]
pub enum PluginResult {
    Success,
    Error(String),
    Warning(String),
}

/// A command that a plugin offers.
#[derive(Debug)]
pub struct PluginCommand {
    pub id: String,
    pub name: String,
    pub description: String,
    pub category: PluginCategory,
    pub shortcut: Option<String>,
}

/// What a plugin says of itself.
#[derive(Debug)]
pub struct PluginMetadata {
    pub name: String,
    pub version: String,
    pub author: String,
    pub description: String,
    pub category: PluginCategory,
    pub aseprite_version: String,
    pub entry_point: String,
}

/// `m` describes a built-in filter of the given name.
pub open spec fn describes_filter(
    m: PluginMetadata,
    name: Seq<char>,
    description: Seq<char>,
    entry_point: Seq<char>,
) -> bool {
    &&& m.name@ == name
    &&& m.description@ == description
    &&& m.entry_point@ == entry_point
    &&& m.category == PluginCategory::Filter
    &&& m.version@ == "1.0.0"@
    &&& m.author@ == "Kamari Tool"@
    &&& m.aseprite_version@ == "1.0"@
}

/// `c` is the command of a built-in filter.
pub open spec fn offers_filter(
    c: PluginCommand,
    id: Seq<char>,
    name: Seq<char>,
    description: Seq<char>,
    shortcut: Seq<char>,
) -> bool {
    &&& c.id@ == id
    &&& c.name@ == name
    &&& c.description@ == description
    &&& c.category == PluginCategory::Filter
    &&& c.shortcut matches Some(s) && s@ == shortcut
}

/// The description of a built-in filter.
fn filter_metadata(name: &str, description: &str, entry_point: &str) -> (m: PluginMetadata)
    ensures
        describes_filter(m, name@, description@, entry_point@),
{
    PluginMetadata {
        name: name.to_owned(),
        version: "1.0.0".to_owned(),
        author: "Kamari Tool".to_owned(),
        description: description.to_owned(),
        category: PluginCategory::Filter,
        aseprite_version: "1.0".to_owned(),
        entry_point: entry_point.to_owned(),
    }
}

/// The one command of a built-in filter.
fn filter_command(id: &str, name: &str, description: &str, shortcut: &str) -> (c: PluginCommand)
    ensures
        offers_filter(c, id@, name@, description@, shortcut@),
{
    PluginCommand {
        id: id.to_owned(),
        name: name.to_owned(),
        description: description.to_owned(),
        category: PluginCategory::Filter,
        shortcut: Some(shortcut.to_owned()),
    }
}

/// The box blur filter.
pub struct BlurPlugin {
    pub metadata: PluginMetadata,
}

/// The noise filter.
pub struct NoisePlugin {
    pub metadata: PluginMetadata,
}

/// The outline filter.
pub struct OutlinePlugin {
    pub metadata: PluginMetadata,
}

/// The pixelation filter.
pub struct PixelatePlugin {
    pub metadata: PluginMetadata,
}

/// The color replacement filter.
pub struct ColorReplacementPlugin {
    pub metadata: PluginMetadata,
}

impl BlurPlugin {
    /// The blur filter, with its description.
    pub fn new() -> (plugin: BlurPlugin)
        ensures
            describes_filter(plugin.metadata, "Blur"@, "Apply blur effect to the image"@, "blur"@),
    {
        BlurPlugin { metadata: filter_metadata("Blur", "Apply blur effect to the image", "blur") }
    }

    /// The filter's command.
    pub fn command(&self) -> (c: PluginCommand)
        ensures
            offers_filter(c, "blur"@, "Blur"@, "Apply blur effect"@, "Ctrl+B"@),
    {
        filter_command("blur", "Blur", "Apply blur effect", "Ctrl+B")
    }

    /// Whether this filter carries out the command.
    pub fn can_execute(&self, command_id: &str) -> (can: bool)
        ensures
            can == (command_id@ == "blur"@),
    {
        same_text(command_id, "blur")
    }

    /// Blurs a layer: every pixel becomes the rounded mean of the pixels at
    /// most `radius` away in either direction.
    pub fn apply_blur(&self, layer: &mut Layer, radius: usize)
        requires
            old(layer).wf(),
            countable(old(layer)@.pixels),
        ensures
            final(layer)@ == old(layer)@.with_pixels(blurred(old(layer)@.pixels, radius as int)),
            final(layer).wf(),
            has_size(final(layer)@.pixels, old(layer)@.width(), old(layer)@.height()),
    {
        let grid = blur_grid(&layer.grid, radius);
        layer.grid = grid;
        proof {
            crate::grid::sized_is_rectangular(
                layer@.pixels,
                old(layer)@.width(),
                old(layer)@.height(),
            );
        }
    }
}

impl NoisePlugin {
    /// The noise filter, with its description.
    pub fn new() -> (plugin: NoisePlugin)
        ensures
            describes_filter(plugin.metadata, "Noise"@, "Add noise to the image"@, "noise"@),
    {
        NoisePlugin { metadata: filter_metadata("Noise", "Add noise to the image", "noise") }
    }

    /// The filter's command.
    pub fn command(&self) -> (c: PluginCommand)
        ensures
            offers_filter(c, "noise"@, "Add Noise"@, "Add noise to image"@, "Ctrl+N"@),
    {
        filter_command("noise", "Add Noise", "Add noise to image", "Ctrl+N")
    }

    /// Whether this filter carries out the command.
    pub fn can_execute(&self, command_id: &str) -> (can: bool)
        ensures
            can == (command_id@ == "noise"@),
    {
        same_text(command_id, "noise")
    }

    /// Adds noise to a layer: every pixel with alpha has each of its color
    /// channels moved by a random amount of at most `intensity`.
    pub fn apply_noise(&self, layer: &mut Layer, intensity: u8)
        requires
            old(layer).wf(),
        ensures
            final(layer).wf(),
            noisy(old(layer)@.pixels, final(layer)@.pixels, intensity),
            final(layer)@ == old(layer)@.with_pixels(final(layer)@.pixels),
    {
        add_noise_to(&mut layer.grid, intensity);
        proof {
            let p = old(layer)@.pixels;
            let q = layer@.pixels;
            assert forall|y: int| 0 <= y < q.len() implies (#[trigger] q[y]).len() == width_of(q) by {
                assert(p[y].len() == width_of(p));
                assert(p[0].len() == width_of(p));
            }
        }
    }
}

/// `q` is `p` with noise of at most `intensity`: the same shape, and every
/// pixel moved by at most `intensity` on each color channel.
pub open spec fn noisy(p: Pixels, q: Pixels, intensity: u8) -> bool {
    &&& q.len() == p.len()
    &&& forall|y: int| 0 <= y < p.len() ==> (#[trigger] q[y]).len() == p[y].len()
    &&& forall|x: int, y: int| in_bounds(p, x, y) ==> noise_of(p[y][x], #[trigger] q[y][x], intensity)
}

impl OutlinePlugin {
    /// The outline filter, with its description.
    pub fn new() -> (plugin: OutlinePlugin)
        ensures
            describes_filter(plugin.metadata, "Outline"@, "Add outline to sprites"@, "outline"@),
    {
        OutlinePlugin { metadata: filter_metadata("Outline", "Add outline to sprites", "outline") }
    }

    /// The filter's command.
    pub fn command(&self) -> (c: PluginCommand)
        ensures
            offers_filter(c, "outline"@, "Add Outline"@, "Add outline to sprites"@, "Ctrl+O"@),
    {
        filter_command("outline", "Add Outline", "Add outline to sprites", "Ctrl+O")
    }

    /// Whether this filter carries out the command.
    pub fn can_execute(&self, command_id: &str) -> (can: bool)
        ensures
            can == (command_id@ == "outline"@),
    {
        same_text(command_id, "outline")
    }

    /// Outlines a layer: every pixel without alpha within `thickness` of a
    /// pixel with alpha is painted in `color`.
    pub fn apply_outline(&self, layer: &mut Layer, color: Color, thickness: usize)
        requires
            old(layer).wf(),
        ensures
            final(layer)@ == old(layer)@.with_pixels(
                outlined(old(layer)@.pixels, color, thickness as int),
            ),
            final(layer).wf(),
            has_size(final(layer)@.pixels, old(layer)@.width(), old(layer)@.height()),
    {
        let grid = outline_grid(&layer.grid, color, thickness);
        layer.grid = grid;
        proof {
            crate::grid::sized_is_rectangular(
                layer@.pixels,
                old(layer)@.width(),
                old(layer)@.height(),
            );
        }
    }
}

impl PixelatePlugin {
    /// The pixelation filter, with its description.
    pub fn new() -> (plugin: PixelatePlugin)
        ensures
            describes_filter(plugin.metadata, "Pixelate"@, "Apply pixelation effect"@, "pixelate"@),
    {
        PixelatePlugin {
            metadata: filter_metadata("Pixelate", "Apply pixelation effect", "pixelate"),
        }
    }

    /// The filter's command.
    pub fn command(&self) -> (c: PluginCommand)
        ensures
            offers_filter(c, "pixelate"@, "Pixelate"@, "Apply pixelation effect"@, "Ctrl+P"@),
    {
        filter_command("pixelate", "Pixelate", "Apply pixelation effect", "Ctrl+P")
    }

    /// Whether this filter carries out the command.
    pub fn can_execute(&self, command_id: &str) -> (can: bool)
        ensures
            can == (command_id@ == "pixelate"@),
    {
        same_text(command_id, "pixelate")
    }

    /// Pixelates a layer: every tile of `block_size` by `block_size`
    /// pixels is filled with its mean color.
    pub fn apply_pixelate(&self, layer: &mut Layer, block_size: usize)
        requires
            old(layer).wf(),
            countable(old(layer)@.pixels),
            block_size > 0,
        ensures
            final(layer)@ == old(layer)@.with_pixels(
                pixelated(old(layer)@.pixels, block_size as int),
            ),
            final(layer).wf(),
            has_size(final(layer)@.pixels, old(layer)@.width(), old(layer)@.height()),
    {
        let grid = pixelate_grid(&layer.grid, block_size);
        layer.grid = grid;
        proof {
            crate::grid::sized_is_rectangular(
                layer@.pixels,
                old(layer)@.width(),
                old(layer)@.height(),
            );
        }
    }
}

impl ColorReplacementPlugin {
    /// The color replacement filter, with its description.
    pub fn new() -> (plugin: ColorReplacementPlugin)
        ensures
            describes_filter(plugin.metadata, "Color Replace"@, "Replace colors in the image"@, "color_replace"@),
    {
        ColorReplacementPlugin {
            metadata: filter_metadata(
                "Color Replace",
                "Replace colors in the image",
                "color_replace",
            ),
        }
    }

    /// The filter's command.
    pub fn command(&self) -> (c: PluginCommand)
        ensures
            offers_filter(c, "color_replace"@, "Replace Color"@, "Replace colors in the image"@, "Ctrl+R"@),
    {
        filter_command("color_replace", "Replace Color", "Replace colors in the image", "Ctrl+R")
    }

    /// Whether this filter carries out the command.
    pub fn can_execute(&self, command_id: &str) -> (can: bool)
        ensures
            can == (command_id@ == "color_replace"@),
    {
        same_text(command_id, "color_replace")
    }

    /// Replaces, in a layer, every pixel within `tolerance` of
    /// `from_color` on all four channels by `to_color`.
    pub fn replace_color(&self, layer: &mut Layer, from_color: Color, to_color: Color, tolerance: u8)
        requires
            old(layer).wf(),
        ensures
            final(layer)@ == old(layer)@.with_pixels(
                color_replaced(old(layer)@.pixels, from_color, to_color, tolerance),
            ),
            final(layer).wf(),
    {
        replace_color_in(&mut layer.grid, from_color, to_color, tolerance);
        proof {
            let p = old(layer)@.pixels;
            let q = layer@.pixels;
            assert forall|y: int| 0 <= y < q.len() implies (#[trigger] q[y]).len() == width_of(q) by {
                assert(p[y].len() == width_of(p));
                assert(p[0].len() == width_of(p));
            }
        }
    }
}

/// Whether two texts are the same.
pub fn same_text(a: &str, b: &str) -> (same: bool)
    ensures
        same == (a@ == b@),
{
    let left = a.to_owned();
    let right = b.to_owned();
    left == right
}

/// The pixels that a plugin from outside works on, with the canvas size
/// and the two colors in hand.
pub struct PluginContext {
    pub canvas_width: u32,
    pub canvas_height: u32,
    pub selected_color: Color,
    pub secondary_color: Color,
    pub pixel_data: Vec<Vec<Color>>,
}

impl PluginContext {
    /// The pixels.
    pub open spec fn pixels(&self) -> Pixels {
        pixels(self.pixel_data)
    }

    /// The context's invariant: the pixels have the size of the canvas.
    pub open spec fn wf(&self) -> bool {
        has_size(self.pixels(), self.canvas_width as nat, self.canvas_height as nat)
    }

    /// A context of the given parts.
    pub fn new(
        canvas_width: u32,
        canvas_height: u32,
        selected_color: Color,
        secondary_color: Color,
        pixel_data: Vec<Vec<Color>>,
    ) -> (context: PluginContext)
        ensures
            context.canvas_width == canvas_width,
            context.canvas_height == canvas_height,
            context.selected_color == selected_color,
            context.secondary_color == secondary_color,
            context.pixel_data == pixel_data,
    {
        PluginContext { canvas_width, canvas_height, selected_color, secondary_color, pixel_data }
    }

    /// The pixels, for reading.
    pub fn get_pixel_data(&self) -> (data: &Vec<Vec<Color>>)
        ensures
            *data == self.pixel_data,
    {
        &self.pixel_data
    }

    /// Replaces the pixels.
    pub fn set_pixel_data(&mut self, data: Vec<Vec<Color>>)
        ensures
            *final(self) == (PluginContext { pixel_data: data, ..*old(self) }),
    {
        self.pixel_data = data;
    }

    /// The width of the canvas.
    pub fn width(&self) -> (w: usize)
        ensures
            w == self.canvas_width,
    {
        self.canvas_width as usize
    }

    /// The height of the canvas.
    pub fn height(&self) -> (h: usize)
        ensures
            h == self.canvas_height,
    {
        self.canvas_height as usize
    }

    /// The color at `(x, y)`, or `None` outside the pixels.
    pub fn get_pixel(&self, x: usize, y: usize) -> (c: Option<Color>)
        ensures
            c == if in_bounds(self.pixels(), x as int, y as int) {
                Some(self.pixels()[y as int][x as int])
            } else {
                None
            },
    {
        crate::grid::get_pixel(&self.pixel_data, x, y)
    }

    /// Writes `color` at `(x, y)`; outside the pixels nothing happens.
    pub fn set_pixel(&mut self, x: usize, y: usize, color: Color)
        ensures
            final(self).pixels() == with_pixel(old(self).pixels(), x as int, y as int, color),
            final(self).same_but_pixels(old(self)),
            old(self).wf() ==> final(self).wf(),
    {
        crate::grid::set_pixel(&mut self.pixel_data, x, y, color);
        proof {
            if old(self).wf() {
                let p = old(self).pixels();
                let q = self.pixels();
                assert forall|j: int| 0 <= j < q.len() implies (#[trigger] q[j]).len()
                    == self.canvas_width by {
                    assert(p[j].len() == self.canvas_width);
                }
            }
        }
    }

    /// Everything but the pixels is as in `other`.
    pub open spec fn same_but_pixels(&self, other: &PluginContext) -> bool {
        &&& self.canvas_width == other.canvas_width
        &&& self.canvas_height == other.canvas_height
        &&& self.selected_color == other.selected_color
        &&& self.secondary_color == other.secondary_color
    }

    /// What the invariant says of the pixels' shape.
    proof fn shape_facts(&self)
        requires
            self.wf(),
        ensures
            rectangular(self.pixels()),
            self.pixels().len() == self.canvas_height,
            self.canvas_height > 0 ==> width_of(self.pixels()) == self.canvas_width,
    {
        crate::grid::sized_is_rectangular(
            self.pixels(),
            self.canvas_width as nat,
            self.canvas_height as nat,
        );
    }

    /// A grid of the pixels' shape has the size of the canvas.
    proof fn shape_kept(&self, q: Pixels)
        requires
            self.wf(),
            has_size(q, width_of(self.pixels()), self.pixels().len()),
        ensures
            has_size(q, self.canvas_width as nat, self.canvas_height as nat),
    {
        self.shape_facts();
    }

    /// Blurs the pixels: every pixel becomes the rounded mean of the
    /// pixels at most `radius` away in either direction.
    pub fn apply_blur(&mut self, radius: usize)
        requires
            old(self).wf(),
            countable(old(self).pixels()),
        ensures
            final(self).pixels() == blurred(old(self).pixels(), radius as int),
            final(self).same_but_pixels(old(self)),
            final(self).wf(),
    {
        proof {
            self.shape_facts();
        }
        let data = blur_grid(&self.pixel_data, radius);
        proof {
            self.shape_kept(pixels(data));
        }
        self.pixel_data = data;
    }

    /// Adds noise to the pixels: every pixel with alpha has each of its
    /// color channels moved by a random amount of at most `intensity`.
    pub fn apply_noise(&mut self, intensity: u8)
        requires
            old(self).wf(),
        ensures
            noisy(old(self).pixels(), final(self).pixels(), intensity),
            final(self).same_but_pixels(old(self)),
            final(self).wf(),
    {
        add_noise_to(&mut self.pixel_data, intensity);
        proof {
            let p = old(self).pixels();
            let q = self.pixels();
            assert forall|j: int| 0 <= j < q.len() implies (#[trigger] q[j]).len()
                == self.canvas_width by {
                assert(p[j].len() == self.canvas_width);
            }
        }
    }

    /// Outlines the pixels: every pixel without alpha within `thickness`
    /// of a pixel with alpha is painted in `color`.
    pub fn apply_outline(&mut self, color: Color, thickness: usize)
        requires
            old(self).wf(),
        ensures
            final(self).pixels() == outlined(old(self).pixels(), color, thickness as int),
            final(self).same_but_pixels(old(self)),
            final(self).wf(),
    {
        proof {
            self.shape_facts();
        }
        let data = outline_grid(&self.pixel_data, color, thickness);
        proof {
            self.shape_kept(pixels(data));
        }
        self.pixel_data = data;
    }

    /// Pixelates the pixels: every tile of `block_size` by `block_size`
    /// pixels is filled with its mean color.
    pub fn apply_pixelate(&mut self, block_size: usize)
        requires
            old(self).wf(),
            countable(old(self).pixels()),
            block_size > 0,
        ensures
            final(self).pixels() == pixelated(old(self).pixels(), block_size as int),
            final(self).same_but_pixels(old(self)),
            final(self).wf(),
    {
        proof {
            self.shape_facts();
        }
        let data = pixelate_grid(&self.pixel_data, block_size);
        proof {
            self.shape_kept(pixels(data));
        }
        self.pixel_data = data;
    }

    /// Replaces every pixel within `tolerance` of `from_color` on all four
    /// channels by `to_color`.
    pub fn replace_color(&mut self, from_color: Color, to_color: Color, tolerance: u8)
        requires
            old(self).wf(),
        ensures
            final(self).pixels() == color_replaced(
                old(self).pixels(),
                from_color,
                to_color,
                tolerance,
            ),
            final(self).same_but_pixels(old(self)),
            final(self).wf(),
    {
        replace_color_in(&mut self.pixel_data, from_color, to_color, tolerance);
        proof {
            let p = old(self).pixels();
            let q = self.pixels();
            assert forall|j: int| 0 <= j < q.len() implies (#[trigger] q[j]).len()
                == self.canvas_width by {
                assert(p[j].len() == self.canvas_width);
            }
        }
    }

    /// Recolors the region of the pixel `(start_x, start_y)` with
    /// `fill_color`.
    pub fn flood_fill(&mut self, start_x: usize, start_y: usize, fill_color: Color)
        requires
            old(self).wf(),
        ensures
            final(self).pixels() == flood_filled(
                old(self).pixels(),
                start_x as int,
                start_y as int,
                fill_color,
            ),
            final(self).same_but_pixels(old(self)),
            final(self).wf(),
    {
        proof {
            self.shape_facts();
        }
        crate::fill::flood_fill(&mut self.pixel_data, start_x, start_y, fill_color);
        proof {
            let p = old(self).pixels();
            let q = self.pixels();
            assert forall|j: int| 0 <= j < q.len() implies (#[trigger] q[j]).len()
                == self.canvas_width by {
                assert(p[j].len() == self.canvas_width);
            }
        }
    }
}

} // verus!
