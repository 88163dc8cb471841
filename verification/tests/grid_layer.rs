use pixelarteditor::color::Color;
use pixelarteditor::grid::{copy_grid, get_pixel, grid_height, grid_width, new_grid, set_pixel};
use pixelarteditor::layer::{copy_frames, Frame, Layer};

#[test]
fn new_grid_is_uniform() {
    let c = Color::new(1, 2, 3, 4);
    let g = new_grid(3, 2, c);
    assert_eq!(g, vec![vec![c; 3]; 2]);
    assert_eq!(grid_width(&g), 3);
    assert_eq!(grid_height(&g), 2);
}

#[test]
fn empty_grid_has_no_width() {
    let g = new_grid(5, 0, Color::black());
    assert_eq!(grid_width(&g), 0);
    assert_eq!(grid_height(&g), 0);
}

#[test]
fn get_pixel_outside_is_none() {
    let g = new_grid(3, 2, Color::red());
    assert_eq!(get_pixel(&g, 2, 1), Some(Color::red()));
    assert_eq!(get_pixel(&g, 3, 1), None);
    assert_eq!(get_pixel(&g, 0, 2), None);
    assert_eq!(get_pixel(&g, usize::MAX, usize::MAX), None);
}

#[test]
fn set_pixel_outside_is_ignored() {
    let mut g = new_grid(3, 2, Color::red());
    set_pixel(&mut g, 1, 1, Color::blue());
    set_pixel(&mut g, 3, 0, Color::blue());
    set_pixel(&mut g, 0, 2, Color::blue());
    let mut want = vec![vec![Color::red(); 3]; 2];
    want[1][1] = Color::blue();
    assert_eq!(g, want);
}

#[test]
fn copies_are_equal_and_independent() {
    let mut g = new_grid(2, 2, Color::white());
    let copy = copy_grid(&g);
    assert_eq!(g, copy);
    set_pixel(&mut g, 0, 0, Color::black());
    assert_ne!(g, copy);
    assert_eq!(copy, vec![vec![Color::white(); 2]; 2]);
}

#[test]
fn new_layer_is_visible_and_opaque() {
    let layer = Layer::new("Ink".to_string(), 4, 3, Color::green());
    assert_eq!(layer.name, "Ink");
    assert!(layer.visible);
    assert_eq!(layer.opacity, 255);
    assert_eq!(layer.width(), 4);
    assert_eq!(layer.height(), 3);
    assert_eq!(layer.grid, vec![vec![Color::green(); 4]; 3]);
}

#[test]
fn layer_size_is_that_of_its_grid() {
    let mut layer = Layer::new("L".to_string(), 4, 3, Color::green());
    layer.grid = vec![vec![Color::red(); 7]; 2];
    assert_eq!(layer.width(), 7);
    assert_eq!(layer.height(), 2);
    layer.grid = Vec::new();
    assert_eq!(layer.width(), 0);
    assert_eq!(layer.height(), 0);
}

#[test]
fn default_layer_is_sixteen_by_sixteen_and_transparent() {
    let layer = Layer::default();
    assert_eq!(layer.name, "Layer 1");
    assert_eq!(layer.grid, vec![vec![Color::transparent(); 16]; 16]);
    let frame = Frame::default();
    assert_eq!(frame.layers.len(), 1);
    assert_eq!(frame.width(), 16);
    assert_eq!(frame.height(), 16);
}

#[test]
fn layer_pixels_can_be_read_and_written() {
    let mut layer = Layer::new("L".to_string(), 2, 2, Color::transparent());
    layer.set_pixel(1, 0, Color::red());
    layer.set_pixel(2, 0, Color::red());
    assert_eq!(layer.get_pixel(1, 0), Some(Color::red()));
    assert_eq!(layer.get_pixel(0, 0), Some(Color::transparent()));
    assert_eq!(layer.get_pixel(2, 0), None);
}

#[test]
fn duplicates_keep_everything() {
    let mut layer = Layer::new("Ink".to_string(), 2, 2, Color::green());
    layer.visible = false;
    layer.opacity = 9;
    layer.set_pixel(0, 1, Color::red());
    let copy = layer.duplicate();
    assert_eq!(copy.name, "Ink");
    assert!(!copy.visible);
    assert_eq!(copy.opacity, 9);
    assert_eq!(copy.grid, layer.grid);
    let frame = Frame::new(layer);
    let frames = vec![frame.duplicate(), frame];
    let copies = copy_frames(&frames);
    assert_eq!(copies.len(), 2);
    assert_eq!(copies[1].layers[0].grid, frames[1].layers[0].grid);
    assert_eq!(copies[0].layers[0].name, "Ink");
}
